//! Discovered devices, the services they announce and the files they share.

use vstd::prelude::*;
use crate::common::text::{concat, strip_prefix};
use crate::common::txt::{TxtRecord, txt_get};
use crate::common::decimal::{parse_u16, parse_u16_spec};
use crate::common::clock::now_millis;

verus! {

/// An IP address.
#[derive(Debug, Clone, Copy)]
pub enum IpAddress {
    V4([u8; 4]),
    V6([u8; 16]),
}

/// A socket address: an IP address and a port.
#[derive(Debug, Clone, Copy)]
pub struct PeerAddress {
    pub ip: IpAddress,
    pub port: u16,
}

/// A service type within a domain.
#[derive(Debug, Clone)]
pub struct ServiceIdentifier {
    pub service_type: String,
    pub domain: String,
}

impl ServiceIdentifier {
    pub fn new(service_type: String, domain: String) -> (r: ServiceIdentifier)
        ensures
            r.service_type == service_type,
            r.domain == domain,
    {
        ServiceIdentifier { service_type, domain }
    }

    /// The fully qualified name: type, domain and a final dot.
    pub fn full_name(&self) -> (r: String)
        ensures
            r@ == self.service_type@ + "."@ + self.domain@ + "."@,
    {
        let a = concat(self.service_type.as_str(), ".");
        let b = concat(a.as_str(), self.domain.as_str());
        concat(b.as_str(), ".")
    }

    /// The name as it is displayed: type and domain.
    pub fn display_name(&self) -> (r: String)
        ensures
            r@ == self.service_type@ + "."@ + self.domain@,
    {
        let a = concat(self.service_type.as_str(), ".");
        concat(a.as_str(), self.domain.as_str())
    }
}

/// A file that a device offers.
#[derive(Debug, Clone)]
pub struct SharedFile {
    pub name: String,
    pub info_hash: String,
    pub size: Option<u64>,
}

/// A device found on the network.
#[derive(Debug, Clone)]
pub struct DeviceInfo {
    pub name: String,
    pub hostname: String,
    pub addresses: Vec<PeerAddress>,
    pub port: u16,
    pub txt_records: TxtRecord,
    pub service_type: String,
    /// When the device was last heard from, in milliseconds of the clock.
    pub last_seen_ms: u64,
}

/// What a device record holds, as plain values.
pub struct DeviceInfoView {
    pub name: Seq<char>,
    pub hostname: Seq<char>,
    pub addresses: Seq<PeerAddress>,
    pub port: u16,
    pub txt: Seq<(Seq<char>, Seq<char>)>,
    pub service_type: Seq<char>,
    pub last_seen_ms: u64,
}

impl View for DeviceInfo {
    type V = DeviceInfoView;

    open spec fn view(&self) -> DeviceInfoView {
        DeviceInfoView {
            name: self.name@,
            hostname: self.hostname@,
            addresses: self.addresses@,
            port: self.port,
            txt: self.txt_records@,
            service_type: self.service_type@,
            last_seen_ms: self.last_seen_ms,
        }
    }
}

/// The prefix of the TXT keys that name shared files.
pub open spec fn file_key_prefix() -> Seq<char> {
    "file_"@
}

/// The shared files that TXT entries announce: each key `file_<name>`
/// names a file whose info hash is the value; in entry order.
pub open spec fn shared_files_of(es: Seq<(Seq<char>, Seq<char>)>) -> Seq<(Seq<char>, Seq<char>)>
    decreases es.len(),
{
    if es.len() == 0 {
        Seq::empty()
    } else {
        let k = es.last().0;
        let p = file_key_prefix();
        shared_files_of(es.drop_last()) + if p.len() <= k.len() && k.take(p.len() as int) == p {
            seq![(k.skip(p.len() as int), es.last().1)]
        } else {
            Seq::empty()
        }
    }
}

/// The whole seconds from `last` to `now`, zero if `now` is earlier.
pub open spec fn elapsed_secs(last: u64, now: u64) -> int {
    if now >= last {
        (now - last) / 1000
    } else {
        0
    }
}

/// The BitTorrent port a device announces under `bt_port`, else 6881.
pub open spec fn bt_port_of(es: Seq<(Seq<char>, Seq<char>)>) -> u16 {
    match txt_get(es, "bt_port"@) {
        Some(v) => match parse_u16_spec(vstd::utf8::encode_utf8(v)) {
            Some(p) => p,
            None => 6881,
        },
        None => 6881,
    }
}

impl DeviceInfo {
    /// A device heard from now.
    pub fn new(
        name: String,
        hostname: String,
        addresses: Vec<PeerAddress>,
        port: u16,
        txt_records: TxtRecord,
        service_type: String,
    ) -> (r: DeviceInfo)
        ensures
            r.name == name,
            r.hostname == hostname,
            r.addresses@ == addresses@,
            r.port == port,
            r.txt_records@ == txt_records@,
            r.service_type == service_type,
    {
        DeviceInfo { name, hostname, addresses, port, txt_records, service_type, last_seen_ms: now_millis() }
    }

    /// A copy, field by field.
    pub fn copy(&self) -> (r: DeviceInfo)
        ensures
            r@ == self@,
    {
        let mut addresses: Vec<PeerAddress> = Vec::new();
        let mut i: usize = 0;
        while i < self.addresses.len()
            invariant
                i <= self.addresses@.len(),
                addresses@ == self.addresses@.take(i as int),
            decreases self.addresses.len() - i,
        {
            addresses.push(self.addresses[i]);
            assert(addresses@ =~= self.addresses@.take(i + 1));
            i = i + 1;
        }
        assert(addresses@ =~= self.addresses@);
        DeviceInfo {
            name: self.name.clone(),
            hostname: self.hostname.clone(),
            addresses,
            port: self.port,
            txt_records: self.txt_records.clone(),
            service_type: self.service_type.clone(),
            last_seen_ms: self.last_seen_ms,
        }
    }

    /// The first address of the asked-for family: IPv6 when `prefer_ipv6`,
    /// else IPv4.
    pub fn get_address(&self, prefer_ipv6: bool) -> (r: Option<&PeerAddress>)
        ensures
            match r {
                Some(a) => exists|i: int|
                    0 <= i < self.addresses@.len() && self.addresses@[i] == *a && (a.ip is V6) == prefer_ipv6
                        && forall|j: int| 0 <= j < i ==> (#[trigger] self.addresses@[j].ip is V6) != prefer_ipv6,
                None => forall|j: int| 0 <= j < self.addresses@.len() ==> (#[trigger] self.addresses@[j].ip is V6)
                    != prefer_ipv6,
            },
    {
        let mut i: usize = 0;
        while i < self.addresses.len()
            invariant
                i <= self.addresses@.len(),
                forall|j: int| 0 <= j < i ==> (#[trigger] self.addresses@[j].ip is V6) != prefer_ipv6,
            decreases self.addresses.len() - i,
        {
            let is_v6 = match self.addresses[i].ip {
                IpAddress::V6(_) => true,
                IpAddress::V4(_) => false,
            };
            if is_v6 == prefer_ipv6 {
                return Some(&self.addresses[i]);
            }
            i = i + 1;
        }
        None
    }

    /// The TXT value under `key`.
    pub fn get_txt_value(&self, key: &str) -> (r: Option<&String>)
        ensures
            match r {
                Some(v) => txt_get(self.txt_records@, key@) == Some(v@),
                None => txt_get(self.txt_records@, key@) is None,
            },
    {
        self.txt_records.get(key)
    }

    /// Whether more than `ttl_secs` whole seconds passed between the last
    /// sighting and `now_ms`.
    pub fn is_expired_at(&self, now_ms: u64, ttl_secs: u64) -> (r: bool)
        ensures
            r == (elapsed_secs(self.last_seen_ms, now_ms) > ttl_secs),
    {
        let elapsed = if now_ms >= self.last_seen_ms {
            (now_ms - self.last_seen_ms) / 1000
        } else {
            0
        };
        elapsed > ttl_secs
    }

    /// Whether the device has not been heard from for more than `ttl_secs`
    /// seconds, by the clock now.
    pub fn is_expired(&self, ttl_secs: u64) -> (r: bool)
        ensures
            exists|now: u64| r == (elapsed_secs(self.last_seen_ms, now) > ttl_secs),
    {
        let now = now_millis();
        self.is_expired_at(now, ttl_secs)
    }

    /// The files the device announces in its TXT records, in entry order.
    pub fn get_shared_files(&self) -> (r: Vec<SharedFile>)
        ensures
            r@.len() == shared_files_of(self.txt_records@).len(),
            forall|i: int| 0 <= i < r@.len() ==> (#[trigger] r@[i]).name@ == shared_files_of(self.txt_records@)[i].0
                && r@[i].info_hash@ == shared_files_of(self.txt_records@)[i].1 && r@[i].size is None,
    {
        let ghost es = self.txt_records@;
        let mut out: Vec<SharedFile> = Vec::new();
        let mut i: usize = 0;
        while i < self.txt_records.len()
            invariant
                es == self.txt_records@,
                i <= es.len(),
                out@.len() == shared_files_of(es.take(i as int)).len(),
                forall|j: int| 0 <= j < out@.len() ==> (#[trigger] out@[j]).name@ == shared_files_of(es.take(i as int))[j].0
                    && out@[j].info_hash@ == shared_files_of(es.take(i as int))[j].1 && out@[j].size is None,
            decreases es.len() - i,
        {
            let (k, v) = self.txt_records.entry(i);
            assert(es.take(i + 1).drop_last() =~= es.take(i as int));
            assert(es.take(i + 1).last() == es[i as int]);
            match strip_prefix(k.as_str(), "file_") {
                Some(name) => {
                    out.push(SharedFile { name, info_hash: v.clone(), size: None });
                },
                None => {},
            }
            i = i + 1;
        }
        assert(es.take(i as int) =~= es);
        out
    }

    /// The BitTorrent port: the `bt_port` TXT value when it parses as a
    /// port, else 6881.
    pub fn get_bt_port(&self) -> (r: Option<u16>)
        ensures
            r == Some(bt_port_of(self.txt_records@)),
    {
        match self.txt_records.get("bt_port") {
            Some(v) => {
                let b = v.as_str().as_bytes();
                match parse_u16(b, 0, b.len()) {
                    Some(p) => {
                        assert(b@.subrange(0, b@.len() as int) =~= b@);
                        Some(p)
                    },
                    None => {
                        assert(b@.subrange(0, b@.len() as int) =~= b@);
                        Some(6881)
                    },
                }
            },
            None => Some(6881),
        }
    }
}

/// A service instance: a named instance of a service type in a domain.
#[derive(Debug, Clone)]
pub struct ServiceInstance {
    pub instance_name: String,
    pub service_type: String,
    pub domain: String,
    pub ttl: u32,
}

impl ServiceInstance {
    /// The instance's full name: instance, type and domain.
    pub fn full_name(&self) -> (r: String)
        ensures
            r@ == self.instance_name@ + "."@ + self.service_type@ + "."@ + self.domain@,
    {
        let a = concat(self.instance_name.as_str(), ".");
        let b = concat(a.as_str(), self.service_type.as_str());
        let c = concat(b.as_str(), ".");
        concat(c.as_str(), self.domain.as_str())
    }
}

} // verus!
