//! The table of devices that the discovery methods report, and how each
//! report changes it.

use vstd::prelude::*;
use crate::common::text::str_eq;
use crate::discovery::broadcast::BroadcastConfig;
use crate::discovery::scan::ScanConfig;

verus! {

/// Which methods to run and how.
#[derive(Debug, Clone)]
pub struct ManagerConfig {
    pub enable_mdns: bool,
    pub enable_broadcast: bool,
    pub enable_scan: bool,
    pub mdns_service_type: String,
    pub mdns_domain: String,
    pub broadcast_config: Option<BroadcastConfig>,
    pub scan_config: Option<ScanConfig>,
}

impl Default for ManagerConfig {
    fn default() -> (r: ManagerConfig)
        ensures
            r.enable_mdns,
            r.enable_broadcast,
            !r.enable_scan,
            r.mdns_service_type@ == "_shareself._tcp.local"@,
            r.mdns_domain@ == "local"@,
            r.broadcast_config is Some,
            r.scan_config is None,
    {
        ManagerConfig {
            enable_mdns: true,
            enable_broadcast: true,
            enable_scan: false,
            mdns_service_type: "_shareself._tcp.local".to_owned(),
            mdns_domain: "local".to_owned(),
            broadcast_config: Some(BroadcastConfig::default()),
            scan_config: None,
        }
    }
}

/// How a device was found.
#[derive(Debug, Clone, Copy, PartialEq, Eq, Structural)]
pub enum DiscoverySource {
    MDNS,
    Broadcast,
    HTTPScan,
}

/// A device as the manager keeps it.
#[derive(Debug, Clone)]
pub struct ManagedDevice {
    pub id: String,
    pub name: String,
    pub hostname: String,
    pub addresses: Vec<String>,
    pub port: u16,
    pub service_type: String,
    pub source: DiscoverySource,
    /// When it was last reported, in milliseconds of the clock.
    pub last_seen_ms: u64,
}

/// A device, as data.
pub struct DeviceView {
    pub id: Seq<char>,
    pub name: Seq<char>,
    pub hostname: Seq<char>,
    pub addresses: Seq<Seq<char>>,
    pub port: u16,
    pub service_type: Seq<char>,
    pub source: DiscoverySource,
    pub last_seen_ms: u64,
}

impl View for ManagedDevice {
    type V = DeviceView;

    open spec fn view(&self) -> DeviceView {
        DeviceView {
            id: self.id@,
            name: self.name@,
            hostname: self.hostname@,
            addresses: self.addresses@.map_values(|a: String| a@),
            port: self.port,
            service_type: self.service_type@,
            source: self.source,
            last_seen_ms: self.last_seen_ms,
        }
    }
}

/// What the manager reports.
#[derive(Debug, Clone)]
pub enum ManagedEvent {
    DeviceFound(ManagedDevice),
    DeviceLost(String),
    DeviceUpdated(ManagedDevice),
    ScanProgress { current: usize, total: usize },
    Error(String),
}

/// The data of each device.
pub open spec fn devices_view(v: Seq<ManagedDevice>) -> Seq<DeviceView> {
    v.map_values(|d: ManagedDevice| d@)
}

/// Some device in `s` has this id.
pub open spec fn has_id(s: Seq<DeviceView>, id: Seq<char>) -> bool {
    exists|i: int| 0 <= i < s.len() && #[trigger] s[i].id == id
}

/// The first position of a device with this id.
pub open spec fn index_of_id(s: Seq<DeviceView>, id: Seq<char>) -> int {
    choose|i: int| 0 <= i < s.len() && #[trigger] s[i].id == id && forall|j: int| 0 <= j < i ==> s[j].id != id
}

/// The devices without those of this id, in order.
pub open spec fn without_id(s: Seq<DeviceView>, id: Seq<char>) -> Seq<DeviceView>
    decreases s.len(),
{
    if s.len() == 0 {
        Seq::empty()
    } else {
        without_id(s.drop_last(), id) + if s.last().id == id {
            Seq::empty()
        } else {
            seq![s.last()]
        }
    }
}

/// The list after an event: a found device is added unless its id is
/// there, a lost id's devices are removed, an updated device replaces the
/// first of its id; other events change nothing.
pub open spec fn list_after(s: Seq<DeviceView>, e: ManagedEvent) -> Seq<DeviceView> {
    match e {
        ManagedEvent::DeviceFound(d) => if has_id(s, d.id@) {
            s
        } else {
            s.push(d@)
        },
        ManagedEvent::DeviceLost(id) => without_id(s, id@),
        ManagedEvent::DeviceUpdated(d) => if has_id(s, d.id@) {
            s.update(index_of_id(s, d.id@), d@)
        } else {
            s
        },
        _ => s,
    }
}

/// Where the first device with this id is, if any.
fn find_id(devices: &Vec<ManagedDevice>, id: &str) -> (r: Option<usize>)
    ensures
        match r {
            Some(i) => i < devices@.len() && has_id(devices_view(devices@), id@) && index_of_id(
                devices_view(devices@),
                id@,
            ) == i,
            None => !has_id(devices_view(devices@), id@),
        },
{
    let ghost s = devices_view(devices@);
    let mut i: usize = 0;
    while i < devices.len()
        invariant
            s == devices_view(devices@),
            i <= devices@.len(),
            forall|j: int| 0 <= j < i ==> s[j].id != id@,
        decreases devices.len() - i,
    {
        assert(s[i as int] == devices@[i as int]@);
        if str_eq(devices[i].id.as_str(), id) {
            assert(s[i as int].id == id@);
            let ghost w = index_of_id(s, id@);
            assert(0 <= i < s.len() && s[i as int].id == id@ && forall|j: int| 0 <= j < i ==> s[j].id != id@);
            assert(w == i) by {
                if w < i {
                    assert(s[w].id != id@);
                } else if w > i {
                    assert(s[i as int].id != id@);
                }
            }
            return Some(i);
        }
        i = i + 1;
    }
    assert forall|j: int| 0 <= j < s.len() implies #[trigger] s[j].id != id@ by {}
    None
}

/// Applies a discovery event to a device list, as the embedding layer does.
pub fn handle_managed_event(event: ManagedEvent, devices: &mut Vec<ManagedDevice>)
    ensures
        devices_view(final(devices)@) == list_after(devices_view(old(devices)@), event),
{
    let ghost s = devices_view(devices@);
    let ghost e = event;
    match event {
        ManagedEvent::DeviceFound(device) => {
            match find_id(devices, device.id.as_str()) {
                Some(_) => {},
                None => {
                    devices.push(device);
                    assert(devices_view(devices@) =~= s.push(devices@.last()@));
                },
            }
        },
        ManagedEvent::DeviceLost(id) => {
            let mut kept: Vec<ManagedDevice> = Vec::new();
            let mut i: usize = 0;
            while i < devices.len()
                invariant
                    s == devices_view(devices@),
                    i <= devices@.len(),
                    devices_view(kept@) == without_id(s.take(i as int), id@),
                decreases devices.len() - i,
            {
                let ghost t = s.take(i + 1);
                assert(t.drop_last() =~= s.take(i as int));
                assert(t.last() == devices@[i as int]@);
                if !str_eq(devices[i].id.as_str(), id.as_str()) {
                    let ghost before = devices_view(kept@);
                    kept.push(devices[i].clone_device());
                    assert(devices_view(kept@) =~= before + seq![devices@[i as int]@]);
                } else {
                    assert(without_id(t, id@) =~= without_id(s.take(i as int), id@));
                }
                i = i + 1;
            }
            assert(s.take(i as int) =~= s);
            *devices = kept;
        },
        ManagedEvent::DeviceUpdated(device) => {
            match find_id(devices, device.id.as_str()) {
                Some(i) => {
                    let ghost dv = device@;
                    devices.set(i, device);
                    assert(devices_view(devices@) =~= s.update(i as int, dv));
                },
                None => {},
            }
        },
        _ => {},
    }
}

impl ManagedDevice {
    /// A copy, field by field.
    pub fn clone_device(&self) -> (r: ManagedDevice)
        ensures
            r@ == self@,
    {
        let mut addresses: Vec<String> = Vec::new();
        let mut i: usize = 0;
        while i < self.addresses.len()
            invariant
                i <= self.addresses@.len(),
                addresses@.len() == i,
                forall|j: int| 0 <= j < i ==> #[trigger] addresses@[j]@ == self.addresses@[j]@,
            decreases self.addresses.len() - i,
        {
            addresses.push(self.addresses[i].clone());
            i = i + 1;
        }
        let r = ManagedDevice {
            id: self.id.clone(),
            name: self.name.clone(),
            hostname: self.hostname.clone(),
            addresses,
            port: self.port,
            service_type: self.service_type.clone(),
            source: self.source,
            last_seen_ms: self.last_seen_ms,
        };
        assert(r@.addresses =~= self@.addresses);
        r
    }
}

/// The ids of the devices are distinct.
pub open spec fn ids_distinct(s: Seq<DeviceView>) -> bool {
    forall|i: int, j: int| 0 <= i < j < s.len() ==> #[trigger] s[i].id != #[trigger] s[j].id
}

/// A device after a newer report of it: the report's addresses, port and
/// time, the rest as it was.
pub open spec fn refreshed(e: DeviceView, d: DeviceView) -> DeviceView {
    DeviceView { addresses: d.addresses, port: d.port, last_seen_ms: d.last_seen_ms, ..e }
}

/// The milliseconds from `last` to `now`, zero if `now` is earlier.
pub open spec fn elapsed_ms(last: u64, now: u64) -> int {
    if now >= last {
        now - last
    } else {
        0
    }
}

/// How long a device may stay silent before it is dropped: two minutes.
pub const DEVICE_TIMEOUT_MS: u64 = 120000;

/// The devices heard from within the timeout before `now`, in order.
pub open spec fn fresh_devices(s: Seq<DeviceView>, now: u64) -> Seq<DeviceView>
    decreases s.len(),
{
    if s.len() == 0 {
        Seq::empty()
    } else {
        fresh_devices(s.drop_last(), now) + if elapsed_ms(s.last().last_seen_ms, now) > DEVICE_TIMEOUT_MS {
            Seq::empty()
        } else {
            seq![s.last()]
        }
    }
}

/// The ids of the devices silent for longer than the timeout, in order.
pub open spec fn stale_ids(s: Seq<DeviceView>, now: u64) -> Seq<Seq<char>>
    decreases s.len(),
{
    if s.len() == 0 {
        Seq::empty()
    } else {
        stale_ids(s.drop_last(), now) + if elapsed_ms(s.last().last_seen_ms, now) > DEVICE_TIMEOUT_MS {
            seq![s.last().id]
        } else {
            Seq::empty()
        }
    }
}

/// The devices found so far, each id once: a map from device id to device,
/// kept as a vector of entries whose ids are distinct (the type's
/// invariant), in the order the devices were first found. With text keys a
/// vector states what the map holds more directly to the verifier than a
/// hash map would.
pub struct DeviceTable {
    devices: Vec<ManagedDevice>,
}

impl View for DeviceTable {
    type V = Seq<DeviceView>;

    closed spec fn view(&self) -> Seq<DeviceView> {
        devices_view(self.devices@)
    }
}

impl DeviceTable {
    #[verifier::type_invariant]
    closed spec fn distinct(&self) -> bool {
        ids_distinct(self@)
    }

    /// No devices.
    pub fn new() -> (r: DeviceTable)
        ensures
            r@.len() == 0,
    {
        let r = DeviceTable { devices: Vec::new() };
        assert(r@ =~= Seq::<DeviceView>::empty());
        r
    }

    /// The devices, in the order they were first found.
    pub fn devices(&self) -> (r: &Vec<ManagedDevice>)
        ensures
            devices_view(r@) == self@,
    {
        &self.devices
    }

    /// Records a report of a device. A new id is added and reported found;
    /// a known id is refreshed and reported updated when the report is
    /// newer than what was recorded, and otherwise nothing changes.
    pub fn handle_device_found(&mut self, device: ManagedDevice) -> (r: Option<ManagedEvent>)
        ensures
            !has_id(old(self)@, device.id@) ==> final(self)@ == old(self)@.push(device@) && (r matches Some(
                ManagedEvent::DeviceFound(x),
            ) && x@ == device@),
            has_id(old(self)@, device.id@) ==> {
                let i = index_of_id(old(self)@, device.id@);
                let e = old(self)@[i];
                if e.last_seen_ms < device.last_seen_ms {
                    final(self)@ == old(self)@.update(i, refreshed(e, device@)) && (r matches Some(
                        ManagedEvent::DeviceUpdated(x),
                    ) && x@ == refreshed(e, device@))
                } else {
                    final(self)@ == old(self)@ && r is None
                }
            },
    {
        proof {
            use_type_invariant(&*self);
        }
        let ghost s = self@;
        match find_id(&self.devices, device.id.as_str()) {
            None => {
                let copy = device.clone_device();
                let mut devices = self.take_devices();
                devices.push(device);
                proof {
                    assert(devices_view(devices@) =~= s.push(copy@));
                    assert forall|a: int, b: int| 0 <= a < b < s.len() + 1 implies #[trigger] devices_view(devices@)[a].id
                        != #[trigger] devices_view(devices@)[b].id by {
                        if b == s.len() {
                            assert(s[a].id != copy@.id);
                        }
                    }
                }
                self.devices = devices;
                Some(ManagedEvent::DeviceFound(copy))
            },
            Some(i) => {
                if self.devices[i].last_seen_ms < device.last_seen_ms {
                    let mut devices = self.take_devices();
                    let mut e = devices[i].clone_device();
                    let ghost ev = e@;
                    e.addresses = device.addresses;
                    e.port = device.port;
                    e.last_seen_ms = device.last_seen_ms;
                    assert(e@ == refreshed(ev, device@));
                    let copy = e.clone_device();
                    devices.set(i, e);
                    proof {
                        assert(devices_view(devices@) =~= s.update(i as int, copy@));
                        assert forall|a: int, b: int| 0 <= a < b < s.len() implies #[trigger] devices_view(devices@)[a].id
                            != #[trigger] devices_view(devices@)[b].id by {
                            assert(devices_view(devices@)[a].id == s[a].id);
                            assert(devices_view(devices@)[b].id == s[b].id);
                        }
                    }
                    self.devices = devices;
                    Some(ManagedEvent::DeviceUpdated(copy))
                } else {
                    None
                }
            },
        }
    }

    /// Drops the devices silent for more than the timeout at `now_ms` and
    /// hands back their ids, in table order.
    pub fn expire(&mut self, now_ms: u64) -> (r: Vec<String>)
        ensures
            final(self)@ == fresh_devices(old(self)@, now_ms),
            r@.map_values(|s: String| s@) == stale_ids(old(self)@, now_ms),
            forall|j: int| 0 <= j < old(self)@.len() && now_ms - old(self)@[j].last_seen_ms <= 120000 ==> final(self)@.contains(
                #[trigger] old(self)@[j],
            ) && !r@.map_values(|s: String| s@).contains(old(self)@[j].id),
            forall|j: int| 0 <= j < old(self)@.len() && now_ms - old(self)@[j].last_seen_ms > 120000 ==> !final(self)@.contains(
                #[trigger] old(self)@[j],
            ) && r@.map_values(|s: String| s@).contains(old(self)@[j].id),
    {
        proof {
            use_type_invariant(&*self);
        }
        let ghost s = self@;
        let devices = self.take_devices();
        let mut kept: Vec<ManagedDevice> = Vec::new();
        let mut lost: Vec<String> = Vec::new();
        let mut i: usize = 0;
        while i < devices.len()
            invariant
                s == devices_view(devices@),
                ids_distinct(s),
                i <= devices@.len(),
                devices_view(kept@) == fresh_devices(s.take(i as int), now_ms),
                lost@.map_values(|s: String| s@) == stale_ids(s.take(i as int), now_ms),
                forall|a: int| 0 <= a < kept@.len() ==> exists|b: int| 0 <= b < i && #[trigger] devices_view(kept@)[a] == s[b],
                ids_distinct(devices_view(kept@)),
            decreases devices.len() - i,
        {
            let ghost t = s.take(i + 1);
            assert(t.drop_last() =~= s.take(i as int));
            assert(t.last() == devices@[i as int]@);
            let last = devices[i].last_seen_ms;
            let elapsed: u64 = if now_ms >= last { now_ms - last } else { 0 };
            if elapsed > DEVICE_TIMEOUT_MS {
                let ghost before = lost@.map_values(|s: String| s@);
                lost.push(devices[i].id.clone());
                assert(lost@.map_values(|s: String| s@) =~= before + seq![s[i as int].id]);
                assert(fresh_devices(t, now_ms) =~= fresh_devices(s.take(i as int), now_ms));
            } else {
                let ghost before = devices_view(kept@);
                kept.push(devices[i].clone_device());
                assert(devices_view(kept@) =~= before + seq![s[i as int]]);
                assert(stale_ids(t, now_ms) =~= stale_ids(s.take(i as int), now_ms));
                proof {
                    let kv = devices_view(kept@);
                    assert forall|a: int| 0 <= a < kept@.len() implies exists|b: int| 0 <= b < i + 1 && #[trigger] kv[a] == s[b] by {
                        if a == kept@.len() - 1 {
                            assert(kv[a] == s[i as int]);
                        } else {
                            assert(kv[a] == before[a]);
                        }
                    }
                    assert forall|a: int, b: int| 0 <= a < b < kv.len() implies #[trigger] kv[a].id != #[trigger] kv[b].id by {
                        if b == kv.len() - 1 {
                            let w = choose|w: int| 0 <= w < i && before[a] == s[w];
                            assert(kv[a] == s[w]);
                        } else {
                            assert(kv[a] == before[a] && kv[b] == before[b]);
                        }
                    }
                }
            }
            i = i + 1;
        }
        assert(s.take(i as int) =~= s);
        proof {
            lemma_expire_by_silence(s, now_ms);
        }
        self.devices = kept;
        lost
    }

    fn take_devices(&mut self) -> (r: Vec<ManagedDevice>)
        ensures
            devices_view(r@) == old(self)@,
            final(self)@.len() == 0,
    {
        let mut devices: Vec<ManagedDevice> = Vec::new();
        std::mem::swap(&mut devices, &mut self.devices);
        proof {
            assert(devices_view(self.devices@) =~= Seq::<DeviceView>::empty());
        }
        devices
    }
}

/// The device that a broadcast announcement describes, seen at `now_ms`.
pub fn device_from_broadcast(name: String, address: String, port: u16, id: String, now_ms: u64) -> (r: ManagedDevice)
    ensures
        r.id == id,
        r.name == name,
        r.hostname@ == address@,
        r.addresses@.len() == 1 && r.addresses@[0]@ == address@,
        r.port == port,
        r.service_type@ == "broadcast"@,
        r.source == DiscoverySource::Broadcast,
        r.last_seen_ms == now_ms,
{
    let hostname = address.clone();
    ManagedDevice {
        id,
        name,
        hostname,
        addresses: vec![address],
        port,
        service_type: "broadcast".to_owned(),
        source: DiscoverySource::Broadcast,
        last_seen_ms: now_ms,
    }
}

/// The device that an HTTP scan found, seen at `now_ms`.
pub fn device_from_scan(name: String, address: String, port: u16, id: String, now_ms: u64) -> (r: ManagedDevice)
    ensures
        r.id == id,
        r.name == name,
        r.hostname@ == address@,
        r.addresses@.len() == 1 && r.addresses@[0]@ == address@,
        r.port == port,
        r.service_type@ == "http"@,
        r.source == DiscoverySource::HTTPScan,
        r.last_seen_ms == now_ms,
{
    let hostname = address.clone();
    ManagedDevice {
        id,
        name,
        hostname,
        addresses: vec![address],
        port,
        service_type: "http".to_owned(),
        source: DiscoverySource::HTTPScan,
        last_seen_ms: now_ms,
    }
}

proof fn lemma_expire_parts(s: Seq<DeviceView>, now: u64)
    ensures
        fresh_devices(s, now) == s.filter(|d: DeviceView| elapsed_ms(d.last_seen_ms, now) <= 120000),
        stale_ids(s, now) == s.filter(|d: DeviceView| elapsed_ms(d.last_seen_ms, now) > 120000).map_values(
            |d: DeviceView| d.id,
        ),
    decreases s.len(),
{
    reveal(Seq::filter);
    if s.len() > 0 {
        lemma_expire_parts(s.drop_last(), now);
        let p = |d: DeviceView| elapsed_ms(d.last_seen_ms, now) > 120000;
        let sf = s.drop_last().filter(p);
        if p(s.last()) {
            assert(sf.push(s.last()).map_values(|d: DeviceView| d.id) =~= sf.map_values(|d: DeviceView| d.id) + seq![
                s.last().id,
            ]);
        } else {
            assert(s.drop_last().filter(|d: DeviceView| elapsed_ms(d.last_seen_ms, now) <= 120000).push(s.last())
                =~= fresh_devices(s.drop_last(), now) + seq![s.last()]);
        }
    }
}

/// Expiring at `now` keeps exactly the devices heard from within the last
/// two minutes (120000 ms) and reports exactly the others: a device silent
/// for at most 120000 ms stays in the table and its id is not reported; a
/// device silent for longer leaves the table and its id is reported. A clock
/// that reads earlier than a device's last report counts it as just heard.
pub proof fn lemma_expire_by_silence(s: Seq<DeviceView>, now: u64)
    requires
        ids_distinct(s),
    ensures
        forall|j: int| 0 <= j < s.len() && now - s[j].last_seen_ms <= 120000 ==> fresh_devices(s, now).contains(
            #[trigger] s[j],
        ) && !stale_ids(s, now).contains(s[j].id),
        forall|j: int| 0 <= j < s.len() && now - s[j].last_seen_ms > 120000 ==> !fresh_devices(s, now).contains(
            #[trigger] s[j],
        ) && stale_ids(s, now).contains(s[j].id),
{
    lemma_expire_parts(s, now);
    let keep = |d: DeviceView| elapsed_ms(d.last_seen_ms, now) <= 120000;
    let drop = |d: DeviceView| elapsed_ms(d.last_seen_ms, now) > 120000;
    let fk = s.filter(keep);
    let fd = s.filter(drop);
    s.filter_lemma(keep);
    s.filter_lemma(drop);
    assert forall|j: int| 0 <= j < s.len() && now - s[j].last_seen_ms <= 120000 implies fresh_devices(s, now).contains(
        #[trigger] s[j],
    ) && !stale_ids(s, now).contains(s[j].id) by {
        assert(keep(s[j]));
        s.lemma_filter_contains(keep, j);
        if stale_ids(s, now).contains(s[j].id) {
            let k = choose|k: int| 0 <= k < stale_ids(s, now).len() && stale_ids(s, now)[k] == s[j].id;
            assert(fd[k].id == s[j].id);
            assert(drop(fd[k]));
            assert(fd.contains(fd[k]));
            s.lemma_filter_contains_rev(drop, fd[k]);
            let j2 = choose|j2: int| 0 <= j2 < s.len() && s[j2] == fd[k];
            if j2 < j {
                assert(s[j2].id != s[j].id);
            } else if j < j2 {
                assert(s[j].id != s[j2].id);
            }
        }
    }
    assert forall|j: int| 0 <= j < s.len() && now - s[j].last_seen_ms > 120000 implies !fresh_devices(s, now).contains(
        #[trigger] s[j],
    ) && stale_ids(s, now).contains(s[j].id) by {
        assert(drop(s[j]));
        s.lemma_filter_contains(drop, j);
        let k = choose|k: int| 0 <= k < fd.len() && fd[k] == s[j];
        assert(stale_ids(s, now)[k] == s[j].id);
        if fresh_devices(s, now).contains(s[j]) {
            let k2 = choose|k2: int| 0 <= k2 < fk.len() && fk[k2] == s[j];
            assert(keep(fk[k2]));
        }
    }
}

} // verus!
