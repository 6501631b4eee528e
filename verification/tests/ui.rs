use sharself::common::txt::TxtRecord;
use sharself::discovery::service::DiscoveryEvent;
use sharself::discovery::types::DeviceInfo;
use sharself::ui::app::{App, Focus, Key};
use sharself::ui::file_browser::{FileBrowser, FileItem};

fn item(name: &str, is_dir: bool) -> FileItem {
    FileItem { name: name.to_string(), path: format!("/home/{}", name), is_dir, size: 1 }
}

fn entries() -> Vec<FileItem> {
    vec![item("zeta.txt", false), item("beta", true), item("alpha.txt", false), item("alpha", true)]
}

fn dev(name: &str, port: u16) -> DeviceInfo {
    DeviceInfo {
        name: name.into(),
        hostname: "h".into(),
        addresses: vec![],
        port,
        txt_records: TxtRecord::new(),
        service_type: "_shareself._tcp.local".into(),
        last_seen_ms: 0,
    }
}

#[test]
fn listing_puts_directories_first_sorted_by_name() {
    let b = FileBrowser::new("/home".into(), entries());
    let names: Vec<&str> = b.files().iter().map(|f| f.name.as_str()).collect();
    assert_eq!(names, vec!["alpha", "beta", "alpha.txt", "zeta.txt"]);
    assert_eq!(b.selected_index(), 0);
    assert_eq!(b.current_dir(), "/home");
}

#[test]
fn browser_history_back_and_forward() {
    let mut b = FileBrowser::new("/home".into(), entries());
    assert!(!b.can_go_back());
    assert!(b.enter_directory());
    assert_eq!(b.current_dir(), "/home/alpha");
    assert!(b.can_go_back());
    assert!(b.go_back());
    assert_eq!(b.current_dir(), "/home");
    assert!(b.can_go_forward());
    assert!(b.go_forward());
    assert_eq!(b.current_dir(), "/home/alpha");
    assert!(!b.go_forward());
}

#[test]
fn browser_selection_stays_in_bounds() {
    let mut b = FileBrowser::new("/home".into(), entries());
    b.select_previous();
    assert_eq!(b.selected_index(), 0);
    b.select_last();
    assert_eq!(b.selected_index(), 3);
    b.select_next();
    assert_eq!(b.selected_index(), 3);
    assert!(!b.enter_directory());
    b.select_first();
    assert_eq!(b.selected_file().unwrap().name, "alpha");
    assert_eq!(item("x", true).display_name(), "📁 x");
    assert_eq!(item("y", false).display_name(), "📄 y");
}

#[test]
fn app_device_list_keys() {
    let mut app = App::new("/home".into(), entries());
    assert_eq!(app.focus(), Focus::DeviceList);
    app.handle_discovery_event(DiscoveryEvent::DeviceFound(dev("a", 1)));
    app.handle_discovery_event(DiscoveryEvent::DeviceFound(dev("b", 2)));
    assert!(!app.handle_key_event(Key::Down));
    assert_eq!(app.device_selected(), 1);
    app.handle_key_event(Key::Char('j'));
    assert_eq!(app.device_selected(), 1);
    app.handle_key_event(Key::Char('k'));
    assert_eq!(app.device_selected(), 0);
    app.handle_key_event(Key::Up);
    assert_eq!(app.device_selected(), 0);
    app.handle_key_event(Key::Tab);
    assert_eq!(app.focus(), Focus::FileBrowser);
    app.handle_key_event(Key::BackTab);
    assert_eq!(app.focus(), Focus::DeviceList);
    app.handle_key_event(Key::Enter);
    assert_eq!(app.focus(), Focus::FileBrowser);
    assert!(app.is_running());
    app.handle_key_event(Key::Char('q'));
    assert!(!app.is_running());
}

#[test]
fn app_browser_keys() {
    let mut app = App::new("/home".into(), entries());
    app.handle_key_event(Key::Tab);
    app.handle_key_event(Key::End);
    assert_eq!(app.file_browser().selected_index(), 3);
    app.handle_key_event(Key::Home);
    assert_eq!(app.file_browser().selected_index(), 0);
    assert!(app.handle_key_event(Key::Enter));
    assert_eq!(app.file_browser().current_dir(), "/home/alpha");
    app.refresh_files(vec![item("inner", false)]);
    assert_eq!(app.file_browser().files().len(), 1);
    assert!(!app.handle_key_event(Key::Enter));
    app.handle_key_event(Key::Esc);
    assert!(!app.is_running());
}

#[test]
fn app_discovery_events() {
    let mut app = App::new("/home".into(), vec![]);
    app.handle_discovery_event(DiscoveryEvent::DeviceFound(dev("a", 1)));
    app.handle_discovery_event(DiscoveryEvent::DeviceFound(dev("b", 2)));
    app.handle_discovery_event(DiscoveryEvent::DeviceUpdated(dev("a", 9)));
    assert_eq!(app.devices()[0].port, 9);
    app.handle_discovery_event(DiscoveryEvent::DeviceLost("a".into()));
    assert_eq!(app.devices().len(), 1);
    assert_eq!(app.devices()[0].name, "b");
    app.handle_discovery_event(DiscoveryEvent::DeviceUpdated(dev("zz", 3)));
    assert_eq!(app.devices().len(), 1);
}

#[test]
fn browser_goes_up_to_the_parent_until_the_root() {
    let mut b = FileBrowser::new("/home/alpha".into(), entries());
    assert!(b.can_go_up());
    assert!(b.go_up());
    assert_eq!(b.current_dir(), "/home");
    assert!(b.go_up());
    assert_eq!(b.current_dir(), "/");
    assert!(!b.can_go_up());
    assert!(!b.go_up());
    assert_eq!(b.current_dir(), "/");
    assert!(b.go_back());
    assert_eq!(b.current_dir(), "/home");
}

#[test]
fn entering_a_directory_drops_the_forward_history() {
    let mut b = FileBrowser::new("/home".into(), entries());
    assert!(b.enter_directory());
    assert!(b.go_back());
    assert!(b.can_go_forward());
    b.select_next();
    assert!(b.enter_directory());
    assert_eq!(b.current_dir(), "/home/beta");
    assert!(b.can_go_back());
    assert!(!b.can_go_forward());
    assert!(!b.go_forward());
    assert_eq!(b.current_dir(), "/home/beta");
}
