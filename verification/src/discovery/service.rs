//! The discovery service's state: the devices heard of, each name once, and
//! the events that their arrival, change and silence produce.

use vstd::prelude::*;
use crate::common::clock::now_millis;
use crate::common::error::Error;
use crate::common::text::str_eq;
use crate::discovery::types::{DeviceInfo, DeviceInfoView, elapsed_secs};

verus! {

/// What the discovery service reports.
#[derive(Debug)]
pub enum DiscoveryEvent {
    /// A device was heard of for the first time.
    DeviceFound(DeviceInfo),
    /// A device went away: its name.
    DeviceLost(String),
    /// A known device announced itself again.
    DeviceUpdated(DeviceInfo),
    /// Something went wrong.
    Error(Error),
}

/// The data of each device.
pub open spec fn infos_view(v: Seq<DeviceInfo>) -> Seq<DeviceInfoView> {
    v.map_values(|d: DeviceInfo| d@)
}

/// No two devices share a name.
pub open spec fn names_distinct(s: Seq<DeviceInfoView>) -> bool {
    forall|i: int, j: int| 0 <= i < j < s.len() ==> #[trigger] s[i].name != #[trigger] s[j].name
}

/// Where the device of this name is, if any.
pub open spec fn name_index(s: Seq<DeviceInfoView>, name: Seq<char>) -> Option<int> {
    if exists|i: int| 0 <= i < s.len() && #[trigger] s[i].name == name {
        Some(choose|i: int| 0 <= i < s.len() && #[trigger] s[i].name == name)
    } else {
        None
    }
}

/// Whether a device has been silent for more than `ttl_secs` seconds at `now`.
pub open spec fn silent(d: DeviceInfoView, now: u64, ttl_secs: u64) -> bool {
    elapsed_secs(d.last_seen_ms, now) > ttl_secs
}

/// The devices still heard from, in order.
pub open spec fn audible(s: Seq<DeviceInfoView>, now: u64, ttl_secs: u64) -> Seq<DeviceInfoView>
    decreases s.len(),
{
    if s.len() == 0 {
        Seq::empty()
    } else {
        audible(s.drop_last(), now, ttl_secs) + if silent(s.last(), now, ttl_secs) {
            Seq::empty()
        } else {
            seq![s.last()]
        }
    }
}

/// The names of the silent devices, in order.
pub open spec fn silent_names(s: Seq<DeviceInfoView>, now: u64, ttl_secs: u64) -> Seq<Seq<char>>
    decreases s.len(),
{
    if s.len() == 0 {
        Seq::empty()
    } else {
        silent_names(s.drop_last(), now, ttl_secs) + if silent(s.last(), now, ttl_secs) {
            seq![s.last().name]
        } else {
            Seq::empty()
        }
    }
}

/// The names that a list of events reports lost, in order; `None` if an
/// event of another kind is among them.
pub open spec fn lost_names(events: Seq<DiscoveryEvent>) -> Seq<Seq<char>> {
    events.map_values(|e: DiscoveryEvent| match e {
        DiscoveryEvent::DeviceLost(n) => n@,
        _ => Seq::empty(),
    })
}

/// The devices the discovery service has heard of: a map from service name
/// to device, kept as a vector of entries whose names are distinct (the
/// type's invariant), in the order they were first heard of.
pub struct DiscoveryState {
    devices: Vec<DeviceInfo>,
}

impl View for DiscoveryState {
    type V = Seq<DeviceInfoView>;

    closed spec fn view(&self) -> Seq<DeviceInfoView> {
        infos_view(self.devices@)
    }
}

/// Where the device of this name is in the list, if anywhere.
fn find_name(devices: &Vec<DeviceInfo>, name: &str) -> (r: Option<usize>)
    requires
        names_distinct(infos_view(devices@)),
    ensures
        r matches Some(i) ==> i < devices@.len() && name_index(infos_view(devices@), name@) == Some(i as int),
        r is None ==> name_index(infos_view(devices@), name@) is None,
{
    let ghost s = infos_view(devices@);
    let mut i: usize = 0;
    while i < devices.len()
        invariant
            s == infos_view(devices@),
            names_distinct(s),
            i <= devices@.len(),
            forall|j: int| 0 <= j < i ==> s[j].name != name@,
        decreases devices.len() - i,
    {
        assert(s[i as int] == devices@[i as int]@);
        if str_eq(devices[i].name.as_str(), name) {
            assert(s[i as int].name == name@);
            let ghost w = choose|k: int| 0 <= k < s.len() && #[trigger] s[k].name == name@;
            assert(w == i) by {
                if w != i {
                    if w < i {
                        assert(s[w].name != name@);
                    } else {
                        assert(names_distinct(s));
                        assert(s[i as int].name != s[w].name);
                    }
                }
            }
            return Some(i);
        }
        i = i + 1;
    }
    assert(!exists|k: int| 0 <= k < s.len() && #[trigger] s[k].name == name@);
    None
}

impl DiscoveryState {
    #[verifier::type_invariant]
    closed spec fn distinct(&self) -> bool {
        names_distinct(self@)
    }

    /// No devices.
    pub fn new() -> (r: DiscoveryState)
        ensures
            r@.len() == 0,
    {
        let r = DiscoveryState { devices: Vec::new() };
        assert(r@ =~= Seq::<DeviceInfoView>::empty());
        r
    }

    fn take_devices(&mut self) -> (r: Vec<DeviceInfo>)
        ensures
            infos_view(r@) == old(self)@,
            final(self)@.len() == 0,
    {
        let mut devices: Vec<DeviceInfo> = Vec::new();
        std::mem::swap(&mut devices, &mut self.devices);
        proof {
            assert(infos_view(self.devices@) =~= Seq::<DeviceInfoView>::empty());
        }
        devices
    }

    /// Records a device. A new name is added and reported found; a known
    /// name has its record replaced and is reported updated.
    pub fn update_device(&mut self, device: DeviceInfo) -> (r: DiscoveryEvent)
        ensures
            match name_index(old(self)@, device.name@) {
                Some(i) => final(self)@ == old(self)@.update(i, device@) && (r matches DiscoveryEvent::DeviceUpdated(
                    d,
                ) && d@ == device@),
                None => final(self)@ == old(self)@.push(device@) && (r matches DiscoveryEvent::DeviceFound(d) && d@
                    == device@),
            },
    {
        proof {
            use_type_invariant(&*self);
        }
        let ghost s = self@;
        let found = find_name(&self.devices, device.name.as_str());
        let copy = device.copy();
        let mut devices = self.take_devices();
        match found {
            Some(i) => {
                devices.set(i, device);
                proof {
                    let t = infos_view(devices@);
                    assert(t =~= s.update(i as int, copy@));
                    assert forall|a: int, b: int| 0 <= a < b < t.len() implies #[trigger] t[a].name
                        != #[trigger] t[b].name by {
                        if a == i {
                            assert(s[b].name != copy@.name) by {
                                if s[b].name == copy@.name {
                                    assert(s[b].name == s[i as int].name);
                                }
                            }
                        } else if b == i {
                            assert(s[a].name != s[i as int].name);
                        } else {
                            assert(t[a] == s[a] && t[b] == s[b]);
                        }
                    }
                }
                self.devices = devices;
                DiscoveryEvent::DeviceUpdated(copy)
            },
            None => {
                devices.push(device);
                proof {
                    let t = infos_view(devices@);
                    assert(t =~= s.push(copy@));
                    assert forall|a: int, b: int| 0 <= a < b < t.len() implies #[trigger] t[a].name
                        != #[trigger] t[b].name by {
                        if b == s.len() {
                            assert(t[a] == s[a]);
                            if s[a].name == copy@.name {
                                assert(exists|k: int| 0 <= k < s.len() && #[trigger] s[k].name == copy@.name);
                            }
                        } else {
                            assert(t[a] == s[a] && t[b] == s[b]);
                        }
                    }
                }
                self.devices = devices;
                DiscoveryEvent::DeviceFound(copy)
            },
        }
    }

    /// Forgets the device of this name and reports it lost; an unknown name
    /// changes nothing and reports nothing.
    pub fn remove_device(&mut self, name: &str) -> (r: Option<DiscoveryEvent>)
        ensures
            match name_index(old(self)@, name@) {
                Some(i) => final(self)@ == old(self)@.remove(i) && (r matches Some(DiscoveryEvent::DeviceLost(n)) && n@
                    == name@),
                None => final(self)@ == old(self)@ && r is None,
            },
    {
        proof {
            use_type_invariant(&*self);
        }
        let ghost s = self@;
        match find_name(&self.devices, name) {
            Some(i) => {
                let mut devices = self.take_devices();
                devices.remove(i);
                proof {
                    let t = infos_view(devices@);
                    assert(t =~= s.remove(i as int));
                    assert forall|a: int, b: int| 0 <= a < b < t.len() implies #[trigger] t[a].name
                        != #[trigger] t[b].name by {
                        let a0 = if a < i { a } else { a + 1 };
                        let b0 = if b < i { b } else { b + 1 };
                        assert(t[a] == s[a0] && t[b] == s[b0]);
                    }
                }
                self.devices = devices;
                Some(DiscoveryEvent::DeviceLost(name.to_string()))
            },
            None => None,
        }
    }

    /// The device of this name, if known.
    pub fn get_device(&self, name: &str) -> (r: Option<&DeviceInfo>)
        ensures
            match name_index(self@, name@) {
                Some(i) => r matches Some(d) && d@ == self@[i],
                None => r is None,
            },
    {
        proof {
            use_type_invariant(self);
        }
        match find_name(&self.devices, name) {
            Some(i) => Some(&self.devices[i]),
            None => None,
        }
    }

    /// Copies of all the devices, in the order they were first heard of.
    pub fn get_all_devices(&self) -> (r: Vec<DeviceInfo>)
        ensures
            infos_view(r@) == self@,
    {
        let mut out: Vec<DeviceInfo> = Vec::new();
        let mut i: usize = 0;
        while i < self.devices.len()
            invariant
                i <= self.devices@.len(),
                infos_view(out@) == infos_view(self.devices@).take(i as int),
            decreases self.devices.len() - i,
        {
            let ghost before = infos_view(out@);
            let c = self.devices[i].copy();
            assert(c@ == infos_view(self.devices@)[i as int]);
            out.push(c);
            assert(infos_view(out@) =~= before.push(c@));
            assert(infos_view(out@) =~= infos_view(self.devices@).take(i + 1));
            i = i + 1;
        }
        assert(infos_view(self.devices@).take(i as int) =~= infos_view(self.devices@));
        out
    }

    /// Forgets the devices silent for more than `ttl_secs` seconds at
    /// `now_ms` and reports each lost, in list order.
    pub fn cleanup_expired_at(&mut self, now_ms: u64, ttl_secs: u64) -> (r: Vec<DiscoveryEvent>)
        ensures
            final(self)@ == audible(old(self)@, now_ms, ttl_secs),
            lost_names(r@) == silent_names(old(self)@, now_ms, ttl_secs),
            forall|k: int| 0 <= k < r@.len() ==> #[trigger] r@[k] is DeviceLost,
    {
        proof {
            use_type_invariant(&*self);
        }
        let ghost s = self@;
        let devices = self.take_devices();
        let mut kept: Vec<DeviceInfo> = Vec::new();
        let mut events: Vec<DiscoveryEvent> = Vec::new();
        let mut i: usize = 0;
        while i < devices.len()
            invariant
                s == infos_view(devices@),
                names_distinct(s),
                i <= devices@.len(),
                infos_view(kept@) == audible(s.take(i as int), now_ms, ttl_secs),
                lost_names(events@) == silent_names(s.take(i as int), now_ms, ttl_secs),
                forall|k: int| 0 <= k < events@.len() ==> #[trigger] events@[k] is DeviceLost,
                forall|a: int| 0 <= a < kept@.len() ==> exists|b: int| 0 <= b < i && #[trigger] infos_view(kept@)[a] == s[b],
                names_distinct(infos_view(kept@)),
            decreases devices.len() - i,
        {
            let ghost t = s.take(i + 1);
            assert(t.drop_last() =~= s.take(i as int));
            assert(t.last() == devices@[i as int]@);
            if devices[i].is_expired_at(now_ms, ttl_secs) {
                let ghost before = events@;
                events.push(DiscoveryEvent::DeviceLost(devices[i].name.clone()));
                assert(lost_names(events@) =~= lost_names(before) + seq![s[i as int].name]);
                assert(audible(t, now_ms, ttl_secs) =~= audible(s.take(i as int), now_ms, ttl_secs));
            } else {
                let ghost before = infos_view(kept@);
                kept.push(devices[i].copy());
                assert(infos_view(kept@) =~= before + seq![s[i as int]]);
                assert(silent_names(t, now_ms, ttl_secs) =~= silent_names(s.take(i as int), now_ms, ttl_secs));
                proof {
                    let kv = infos_view(kept@);
                    assert forall|a: int| 0 <= a < kept@.len() implies exists|b: int| 0 <= b < i + 1 && #[trigger] kv[a]
                        == s[b] by {
                        if a == kept@.len() - 1 {
                            assert(kv[a] == s[i as int]);
                        } else {
                            assert(kv[a] == before[a]);
                        }
                    }
                    assert forall|a: int, b: int| 0 <= a < b < kv.len() implies #[trigger] kv[a].name
                        != #[trigger] kv[b].name by {
                        if b == kv.len() - 1 {
                            let w = choose|w: int| 0 <= w < i && before[a] == s[w];
                            assert(kv[a] == s[w]);
                        } else {
                            assert(kv[a] == before[a] && kv[b] == before[b]);
                        }
                    }
                }
            }
            i = i + 1;
        }
        assert(s.take(i as int) =~= s);
        self.devices = kept;
        events
    }

    /// Forgets the devices silent for more than `ttl_secs` seconds by the
    /// clock now, and reports each lost.
    pub fn cleanup_expired(&mut self, ttl_secs: u64) -> (r: Vec<DiscoveryEvent>)
        ensures
            exists|now: u64|
                final(self)@ == audible(old(self)@, now, ttl_secs) && lost_names(r@) == silent_names(
                    old(self)@,
                    now,
                    ttl_secs,
                ),
    {
        let now = now_millis();
        self.cleanup_expired_at(now, ttl_secs)
    }
}

/// Recording a device and then asking for its name gives the device back,
/// whether it was new or known.
pub proof fn lemma_update_then_get(s: Seq<DeviceInfoView>, d: DeviceInfoView)
    requires
        names_distinct(s),
    ensures
        ({
            let t = match name_index(s, d.name) {
                Some(i) => s.update(i, d),
                None => s.push(d),
            };
            name_index(t, d.name) matches Some(j) && t[j] == d
        }),
{
    let t = match name_index(s, d.name) {
        Some(i) => s.update(i, d),
        None => s.push(d),
    };
    match name_index(s, d.name) {
        Some(i) => {
            assert(t[i] == d);
            assert(exists|k: int| 0 <= k < t.len() && #[trigger] t[k].name == d.name);
            let j = choose|k: int| 0 <= k < t.len() && #[trigger] t[k].name == d.name;
            if j != i {
                assert(t[j] == s[j]);
                assert(s[i].name == d.name);
                if j < i {
                    assert(s[j].name != s[i].name);
                } else {
                    assert(s[i].name != s[j].name);
                }
            }
        },
        None => {
            let n = s.len() as int;
            assert(t[n] == d);
            assert(exists|k: int| 0 <= k < t.len() && #[trigger] t[k].name == d.name);
            let j = choose|k: int| 0 <= k < t.len() && #[trigger] t[k].name == d.name;
            if j != n {
                assert(t[j] == s[j]);
                assert(exists|k: int| 0 <= k < s.len() && #[trigger] s[k].name == d.name);
            }
        },
    }
}

/// After a device is forgotten, its name is not found.
pub proof fn lemma_remove_then_absent(s: Seq<DeviceInfoView>, name: Seq<char>)
    requires
        names_distinct(s),
    ensures
        ({
            let t = match name_index(s, name) {
                Some(i) => s.remove(i),
                None => s,
            };
            name_index(t, name) is None
        }),
{
    match name_index(s, name) {
        Some(i) => {
            let t = s.remove(i);
            if exists|k: int| 0 <= k < t.len() && #[trigger] t[k].name == name {
                let k = choose|k: int| 0 <= k < t.len() && #[trigger] t[k].name == name;
                let k0 = if k < i { k } else { k + 1 };
                assert(t[k] == s[k0]);
                assert(s[i].name == name);
                if k0 < i {
                    assert(s[k0].name != s[i].name);
                } else {
                    assert(s[i].name != s[k0].name);
                }
            }
        },
        None => {},
    }
}

} // verus!
