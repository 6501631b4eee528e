//! The terminal interface's state machine: the devices seen, the file
//! browser, which of the two has the focus, and what each key does.

use vstd::prelude::*;
use crate::common::text::str_eq;
use crate::discovery::service::{DiscoveryEvent, infos_view};
use crate::discovery::types::{DeviceInfo, DeviceInfoView};
use crate::ui::file_browser::{FileBrowser, FileItem, is_listing_of, visit};

verus! {

/// Which pane keys go to.
#[derive(Debug, Clone, Copy, PartialEq, Eq, Structural)]
pub enum Focus {
    /// The device list.
    DeviceList,
    /// The file browser.
    FileBrowser,
}

/// A key press, as the interface tells keys apart.
#[derive(Debug, Clone, Copy, PartialEq, Eq, Structural)]
pub enum Key {
    Up,
    Down,
    Left,
    Enter,
    Home,
    End,
    Tab,
    BackTab,
    Esc,
    Char(char),
    Other,
}

/// Up, or `k`.
pub open spec fn is_up(k: Key) -> bool {
    k == Key::Up || k == Key::Char('k')
}

/// Down, or `j`.
pub open spec fn is_down(k: Key) -> bool {
    k == Key::Down || k == Key::Char('j')
}

/// Left, or `h`.
pub open spec fn is_left(k: Key) -> bool {
    k == Key::Left || k == Key::Char('h')
}

/// Tab either way.
pub open spec fn is_switch(k: Key) -> bool {
    k == Key::Tab || k == Key::BackTab
}

/// `q`, or Escape.
pub open spec fn is_quit(k: Key) -> bool {
    k == Key::Char('q') || k == Key::Esc
}

/// The devices after a discovery event: a found device is added at the
/// end, a lost name's devices are removed, an updated device replaces the
/// first of its name; errors change nothing.
pub open spec fn devices_after(s: Seq<DeviceInfoView>, e: DiscoveryEvent) -> Seq<DeviceInfoView> {
    match e {
        DiscoveryEvent::DeviceFound(d) => s.push(d@),
        DiscoveryEvent::DeviceLost(name) => s.filter(|x: DeviceInfoView| x.name != name@),
        DiscoveryEvent::DeviceUpdated(d) => match first_named(s, d@.name) {
            Some(i) => s.update(i, d@),
            None => s,
        },
        DiscoveryEvent::Error(_) => s,
    }
}

/// The first position of a device of this name.
pub open spec fn first_named(s: Seq<DeviceInfoView>, name: Seq<char>) -> Option<int> {
    if exists|i: int| 0 <= i < s.len() && #[trigger] s[i].name == name {
        Some(choose|i: int| 0 <= i < s.len() && #[trigger] s[i].name == name && forall|j: int| 0 <= j < i ==> s[j].name != name)
    } else {
        None
    }
}

/// Where the first device of this name is, if anywhere.
fn find_first_named(devices: &Vec<DeviceInfo>, name: &str) -> (r: Option<usize>)
    ensures
        r matches Some(k) ==> k < devices@.len() && first_named(infos_view(devices@), name@) == Some(k as int),
        r is None ==> first_named(infos_view(devices@), name@) is None,
{
    let ghost s = infos_view(devices@);
    let mut i: usize = 0;
    while i < devices.len()
        invariant
            s == infos_view(devices@),
            i <= devices@.len(),
            forall|j: int| 0 <= j < i ==> s[j].name != name@,
        decreases devices.len() - i,
    {
        assert(s[i as int] == devices@[i as int]@);
        if str_eq(devices[i].name.as_str(), name) {
            proof {
                assert(s[i as int].name == name@);
                let w = choose|w: int| 0 <= w < s.len() && #[trigger] s[w].name == name@ && forall|j: int|
                    0 <= j < w ==> s[j].name != name@;
                assert(w == i) by {
                    if w < i {
                        assert(s[w].name != name@);
                    } else if w > i {
                        assert(s[i as int].name != name@);
                    }
                }
            }
            return Some(i);
        }
        i = i + 1;
    }
    assert(!exists|j: int| 0 <= j < s.len() && #[trigger] s[j].name == name@);
    None
}

/// The devices not of this name, in order.
fn without_name(devices: Vec<DeviceInfo>, name: &str) -> (r: Vec<DeviceInfo>)
    ensures
        infos_view(r@) == infos_view(devices@).filter(|x: DeviceInfoView| x.name != name@),
{
    let ghost s = infos_view(devices@);
    let ghost keep = |x: DeviceInfoView| x.name != name@;
    let mut kept: Vec<DeviceInfo> = Vec::new();
    let mut i: usize = 0;
    while i < devices.len()
        invariant
            s == infos_view(devices@),
            i <= devices@.len(),
            infos_view(kept@) == s.take(i as int).filter(keep),
            keep == (|x: DeviceInfoView| x.name != name@),
        decreases devices.len() - i,
    {
        assert(s[i as int] == devices@[i as int]@);
        if !str_eq(devices[i].name.as_str(), name) {
            let ghost before = infos_view(kept@);
            let c = devices[i].copy();
            kept.push(c);
            assert(infos_view(kept@) =~= before.push(c@));
        }
        proof {
            s.take(i as int).lemma_filter_push(s[i as int], keep);
            assert(s.take(i as int).push(s[i as int]) =~= s.take(i + 1));
        }
        i = i + 1;
    }
    assert(s.take(i as int) =~= s);
    kept
}

/// The interface's state.
pub struct App {
    devices: Vec<DeviceInfo>,
    device_selected: usize,
    file_browser: FileBrowser,
    focus: Focus,
    running: bool,
}

impl App {
    /// The devices listed.
    pub closed spec fn device_list(&self) -> Seq<DeviceInfoView> {
        infos_view(self.devices@)
    }

    /// The selected position in the device list.
    pub closed spec fn selected(&self) -> int {
        self.device_selected as int
    }

    /// The file browser.
    pub closed spec fn browser(&self) -> FileBrowser {
        self.file_browser
    }

    /// The focus.
    pub closed spec fn focused(&self) -> Focus {
        self.focus
    }

    /// Whether the interface keeps running.
    pub closed spec fn live(&self) -> bool {
        self.running
    }

    /// No devices, the browser at `start_dir` listing `entries`, the device
    /// list focused, running.
    pub fn new(start_dir: String, entries: Vec<FileItem>) -> (r: App)
        ensures
            r.device_list().len() == 0,
            r.selected() == 0,
            r.focused() == Focus::DeviceList,
            r.live(),
            r.browser().cur() == start_dir@,
            is_listing_of(r.browser().listed(), entries@),
    {
        let r = App {
            devices: Vec::new(),
            device_selected: 0,
            file_browser: FileBrowser::new(start_dir, entries),
            focus: Focus::DeviceList,
            running: true,
        };
        assert(r.device_list() =~= Seq::<DeviceInfoView>::empty());
        r
    }

    /// Takes in a discovery event.
    pub fn handle_discovery_event(&mut self, event: DiscoveryEvent)
        ensures
            final(self).device_list() == devices_after(old(self).device_list(), event),
            final(self).selected() == old(self).selected(),
            final(self).browser() == old(self).browser(),
            final(self).focused() == old(self).focused(),
            final(self).live() == old(self).live(),
    {
        let ghost s = infos_view(self.devices@);
        match event {
            DiscoveryEvent::DeviceFound(device) => {
                let ghost dv = device@;
                self.devices.push(device);
                assert(infos_view(self.devices@) =~= s.push(dv));
            },
            DiscoveryEvent::DeviceLost(name) => {
                let mut devices: Vec<DeviceInfo> = Vec::new();
                std::mem::swap(&mut devices, &mut self.devices);
                self.devices = without_name(devices, name.as_str());
            },
            DiscoveryEvent::DeviceUpdated(device) => {
                let ghost dv = device@;
                match find_first_named(&self.devices, device.name.as_str()) {
                    Some(k) => {
                        self.devices.set(k, device);
                        assert(infos_view(self.devices@) =~= s.update(k as int, dv));
                    },
                    None => {},
                }
            },
            DiscoveryEvent::Error(_) => {},
        }
    }

    /// Takes in a key press; whether the browser moved to another
    /// directory, whose listing the caller then refreshes.
    ///
    /// With the device list focused: up and down move the selection within
    /// the list, Enter and Tab give the focus to the browser, `q` and
    /// Escape stop the interface. With the browser focused: up and down
    /// move its selection, Home and End select the first and last entry,
    /// Enter enters the selected directory, left goes to the parent, Tab
    /// gives the focus back, `q` and Escape stop the interface. Other keys
    /// do nothing.
    pub fn handle_key_event(&mut self, key: Key) -> (r: bool)
        ensures
            final(self).device_list() == old(self).device_list(),
            old(self).focused() == Focus::DeviceList ==> {
                &&& !r
                &&& final(self).browser() == old(self).browser()
                &&& final(self).selected() == if is_up(key) && old(self).selected() > 0 {
                    old(self).selected() - 1
                } else if is_down(key) && old(self).selected() + 1 < old(self).device_list().len() {
                    old(self).selected() + 1
                } else {
                    old(self).selected()
                }
                &&& final(self).focused() == if key == Key::Enter || is_switch(key) {
                    Focus::FileBrowser
                } else {
                    Focus::DeviceList
                }
                &&& final(self).live() == (old(self).live() && !is_quit(key))
            },
            old(self).focused() == Focus::FileBrowser ==> {
                let b0 = old(self).browser();
                let b1 = final(self).browser();
                &&& final(self).selected() == old(self).selected()
                &&& final(self).focused() == if is_switch(key) {
                    Focus::DeviceList
                } else {
                    Focus::FileBrowser
                }
                &&& final(self).live() == (old(self).live() && !is_quit(key))
                &&& b1.listed() == b0.listed()
                &&& b1.sel() == if is_up(key) && b0.listed().len() > 0 && b0.sel() > 0 {
                    b0.sel() - 1
                } else if is_down(key) && b0.listed().len() > 0 && b0.sel() + 1 < b0.listed().len() {
                    b0.sel() + 1
                } else if key == Key::Home {
                    0
                } else if key == Key::End && b0.listed().len() > 0 {
                    b0.listed().len() - 1
                } else {
                    b0.sel()
                }
                &&& r ==> b1.hist() == visit(b0.hist(), b0.hidx(), b1.cur()) && b1.hidx() == b0.hidx() + 1
                &&& r ==> (key == Key::Enter || is_left(key))
                &&& key == Key::Enter ==> r == (0 <= b0.sel() < b0.listed().len() && b0.listed()[b0.sel()].is_dir)
                &&& (key == Key::Enter && r) ==> b1.cur() == b0.listed()[b0.sel()].path@
                &&& !r ==> b1.cur() == b0.cur() && b1.hist() == b0.hist() && b1.hidx() == b0.hidx()
            },
    {
        match self.focus {
            Focus::DeviceList => {
                match key {
                    Key::Up | Key::Char('k') => {
                        if self.device_selected > 0 {
                            self.device_selected = self.device_selected - 1;
                        }
                    },
                    Key::Down | Key::Char('j') => {
                        if self.device_selected < self.devices.len() && self.device_selected + 1 < self.devices.len() {
                            self.device_selected = self.device_selected + 1;
                        }
                    },
                    Key::Enter | Key::Tab | Key::BackTab => {
                        self.focus = Focus::FileBrowser;
                    },
                    Key::Char('q') | Key::Esc => {
                        self.running = false;
                    },
                    _ => {},
                }
                false
            },
            Focus::FileBrowser => {
                match key {
                    Key::Up | Key::Char('k') => {
                        self.file_browser.select_previous();
                        false
                    },
                    Key::Down | Key::Char('j') => {
                        self.file_browser.select_next();
                        false
                    },
                    Key::Enter => self.file_browser.enter_directory(),
                    Key::Left | Key::Char('h') => self.file_browser.go_up(),
                    Key::Home => {
                        self.file_browser.select_first();
                        false
                    },
                    Key::End => {
                        self.file_browser.select_last();
                        false
                    },
                    Key::Tab | Key::BackTab => {
                        self.focus = Focus::DeviceList;
                        false
                    },
                    Key::Char('q') | Key::Esc => {
                        self.running = false;
                        false
                    },
                    _ => false,
                }
            },
        }
    }

    /// Shows `entries` as the browser's listing, as after it moved.
    pub fn refresh_files(&mut self, entries: Vec<FileItem>)
        ensures
            is_listing_of(final(self).browser().listed(), entries@),
            final(self).browser().sel() == 0,
            final(self).browser().cur() == old(self).browser().cur(),
            final(self).device_list() == old(self).device_list(),
            final(self).selected() == old(self).selected(),
            final(self).focused() == old(self).focused(),
            final(self).live() == old(self).live(),
    {
        self.file_browser.refresh(entries);
    }

    /// Whether the interface keeps running.
    pub fn is_running(&self) -> (r: bool)
        ensures
            r == self.live(),
    {
        self.running
    }

    /// The focus.
    pub fn focus(&self) -> (r: Focus)
        ensures
            r == self.focused(),
    {
        self.focus
    }

    /// The devices listed.
    pub fn devices(&self) -> (r: &Vec<DeviceInfo>)
        ensures
            infos_view(r@) == self.device_list(),
    {
        &self.devices
    }

    /// The selected position in the device list.
    pub fn device_selected(&self) -> (r: usize)
        ensures
            r == self.selected(),
    {
        self.device_selected
    }

    /// The file browser.
    pub fn file_browser(&self) -> (r: &FileBrowser)
        ensures
            *r == self.browser(),
    {
        &self.file_browser
    }
}

} // verus!
