//! mDNS responses: reading the records of a received response, and building
//! responses and service announcements.

use vstd::prelude::*;
use crate::common::text::{concat, str_eq};
use crate::discovery::types::{PeerAddress, IpAddress};
use crate::mdns::packet::{MdnsPacket, MdnsRecord, RecordData, RecordType, RecordClass, flags_response};
use crate::mdns::wire::enc_packet;

verus! {

/// The records of a response, with who sent it.
#[derive(Debug, Clone)]
pub struct MdnsResponse {
    pub source: PeerAddress,
    pub records: Vec<MdnsRecord>,
}

/// The records of this type, in order.
pub open spec fn records_of_type(s: Seq<MdnsRecord>, t: RecordType) -> Seq<MdnsRecord>
    decreases s.len(),
{
    if s.len() == 0 {
        Seq::empty()
    } else {
        records_of_type(s.drop_last(), t) + if s.last().rtype == t {
            seq![s.last()]
        } else {
            Seq::empty()
        }
    }
}

/// The records with this name, in order.
pub open spec fn records_named(s: Seq<MdnsRecord>, name: Seq<char>) -> Seq<MdnsRecord>
    decreases s.len(),
{
    if s.len() == 0 {
        Seq::empty()
    } else {
        records_named(s.drop_last(), name) + if s.last().name@ == name {
            seq![s.last()]
        } else {
            Seq::empty()
        }
    }
}

/// The names the PTR records point to, in order.
pub open spec fn ptr_targets(s: Seq<MdnsRecord>) -> Seq<Seq<char>>
    decreases s.len(),
{
    if s.len() == 0 {
        Seq::empty()
    } else {
        ptr_targets(s.drop_last()) + if s.last().rtype == RecordType::PTR {
            match s.last().data {
                RecordData::Ptr(n) => seq![n@],
                _ => Seq::empty(),
            }
        } else {
            Seq::empty()
        }
    }
}

/// The targets and ports of the SRV records, in order.
pub open spec fn srv_targets(s: Seq<MdnsRecord>) -> Seq<(Seq<char>, u16)>
    decreases s.len(),
{
    if s.len() == 0 {
        Seq::empty()
    } else {
        srv_targets(s.drop_last()) + if s.last().rtype == RecordType::SRV {
            match s.last().data {
                RecordData::Srv { target, port, .. } => seq![(target@, port)],
                _ => Seq::empty(),
            }
        } else {
            Seq::empty()
        }
    }
}

/// The records referred to.
pub open spec fn derefs(v: Seq<&MdnsRecord>) -> Seq<MdnsRecord> {
    v.map_values(|r: &MdnsRecord| *r)
}

impl MdnsResponse {
    /// A response from `source` without records.
    pub fn new(source: PeerAddress) -> (r: MdnsResponse)
        ensures
            r.source == source,
            r.records@.len() == 0,
    {
        MdnsResponse { source, records: Vec::new() }
    }

    /// The records of a received message: its answers, then its additional
    /// records.
    pub fn from_packet(source: PeerAddress, packet: MdnsPacket) -> (r: MdnsResponse)
        ensures
            r.source == source,
            r.records@ == packet.answers@ + packet.additionals@,
    {
        let mut records = packet.answers;
        let mut additionals = packet.additionals;
        let ghost a = records@;
        let ghost b = additionals@;
        records.append(&mut additionals);
        MdnsResponse { source, records }
    }

    /// The records of type `rtype`, in order.
    pub fn get_records(&self, rtype: RecordType) -> (r: Vec<&MdnsRecord>)
        ensures
            derefs(r@) == records_of_type(self.records@, rtype),
    {
        let ghost s = self.records@;
        let mut out: Vec<&MdnsRecord> = Vec::new();
        let mut i: usize = 0;
        while i < self.records.len()
            invariant
                s == self.records@,
                i <= s.len(),
                derefs(out@) == records_of_type(s.take(i as int), rtype),
            decreases self.records.len() - i,
        {
            let ghost t = s.take(i + 1);
            assert(t.drop_last() =~= s.take(i as int));
            assert(t.last() == s[i as int]);
            if self.records[i].rtype == rtype {
                let ghost before = derefs(out@);
                out.push(&self.records[i]);
                assert(derefs(out@) =~= before.push(s[i as int]));
            }
            i = i + 1;
        }
        assert(s.take(i as int) =~= s);
        out
    }

    /// The records named `name`, in order.
    pub fn get_records_by_name(&self, name: &str) -> (r: Vec<&MdnsRecord>)
        ensures
            derefs(r@) == records_named(self.records@, name@),
    {
        let ghost s = self.records@;
        let mut out: Vec<&MdnsRecord> = Vec::new();
        let mut i: usize = 0;
        while i < self.records.len()
            invariant
                s == self.records@,
                i <= s.len(),
                derefs(out@) == records_named(s.take(i as int), name@),
            decreases self.records.len() - i,
        {
            let ghost t = s.take(i + 1);
            assert(t.drop_last() =~= s.take(i as int));
            assert(t.last() == s[i as int]);
            if str_eq(self.records[i].name.as_str(), name) {
                let ghost before = derefs(out@);
                out.push(&self.records[i]);
                assert(derefs(out@) =~= before.push(s[i as int]));
            }
            i = i + 1;
        }
        assert(s.take(i as int) =~= s);
        out
    }

    /// The service instance names that the PTR records point to.
    pub fn get_service_names(&self) -> (r: Vec<String>)
        ensures
            r@.map_values(|s: String| s@) == ptr_targets(self.records@),
    {
        let ghost s = self.records@;
        let mut out: Vec<String> = Vec::new();
        let mut i: usize = 0;
        while i < self.records.len()
            invariant
                s == self.records@,
                i <= s.len(),
                out@.map_values(|s: String| s@) == ptr_targets(s.take(i as int)),
            decreases self.records.len() - i,
        {
            let ghost t = s.take(i + 1);
            assert(t.drop_last() =~= s.take(i as int));
            assert(t.last() == s[i as int]);
            if self.records[i].rtype == RecordType::PTR {
                match &self.records[i].data {
                    RecordData::Ptr(n) => {
                        let ghost before = out@.map_values(|s: String| s@);
                        out.push(n.clone());
                        assert(out@.map_values(|s: String| s@) =~= before.push(n@));
                    },
                    _ => {},
                }
            }
            i = i + 1;
        }
        assert(s.take(i as int) =~= s);
        out
    }

    /// The targets and ports of the SRV records.
    pub fn get_srv_target(&self) -> (r: Vec<(String, u16)>)
        ensures
            r@.map_values(|t: (String, u16)| (t.0@, t.1)) == srv_targets(self.records@),
    {
        let ghost s = self.records@;
        let mut out: Vec<(String, u16)> = Vec::new();
        let mut i: usize = 0;
        while i < self.records.len()
            invariant
                s == self.records@,
                i <= s.len(),
                out@.map_values(|t: (String, u16)| (t.0@, t.1)) == srv_targets(s.take(i as int)),
            decreases self.records.len() - i,
        {
            let ghost t = s.take(i + 1);
            assert(t.drop_last() =~= s.take(i as int));
            assert(t.last() == s[i as int]);
            if self.records[i].rtype == RecordType::SRV {
                match &self.records[i].data {
                    RecordData::Srv { target, port, .. } => {
                        let ghost before = out@.map_values(|t: (String, u16)| (t.0@, t.1));
                        out.push((target.clone(), *port));
                        assert(out@.map_values(|t: (String, u16)| (t.0@, t.1)) =~= before.push((target@, *port)));
                    },
                    _ => {},
                }
            }
            i = i + 1;
        }
        assert(s.take(i as int) =~= s);
        out
    }
}

/// A record of the Internet class.
pub open spec fn in_record(name: String, rtype: RecordType, ttl: u32, data: RecordData) -> MdnsRecord {
    MdnsRecord { name, rtype, rclass: RecordClass::IN, ttl, data }
}

/// Builds a response, answer by answer.
pub struct ResponseBuilder {
    packet: MdnsPacket,
}

impl ResponseBuilder {
    /// The message built so far.
    pub closed spec fn built(&self) -> MdnsPacket {
        self.packet
    }

    /// An empty response.
    pub fn new() -> (r: ResponseBuilder)
        ensures
            flags_response(r.built().flags),
            r.built().flags == 0x8000,
            r.built().questions@.len() == 0,
            r.built().answers@.len() == 0,
            r.built().authorities@.len() == 0,
            r.built().additionals@.len() == 0,
    {
        ResponseBuilder { packet: MdnsPacket::response() }
    }

    fn add(self, record: MdnsRecord) -> (r: ResponseBuilder)
        ensures
            r.built().answers@ == self.built().answers@.push(record),
            r.built().flags == self.built().flags,
            r.built().questions@ == self.built().questions@,
            r.built().authorities@ == self.built().authorities@,
            r.built().additionals@ == self.built().additionals@,
    {
        let mut b = self;
        b.packet.answers.push(record);
        b
    }

    /// Adds a PTR answer.
    pub fn add_ptr(self, name: String, ptr_domain: String, ttl: u32) -> (r: ResponseBuilder)
        ensures
            r.built().answers@ == self.built().answers@.push(in_record(name, RecordType::PTR, ttl, RecordData::Ptr(ptr_domain))),
            r.built().flags == self.built().flags,
            r.built().questions@ == self.built().questions@,
            r.built().authorities@ == self.built().authorities@,
            r.built().additionals@ == self.built().additionals@,
    {
        self.add(MdnsRecord { name, rtype: RecordType::PTR, rclass: RecordClass::IN, ttl, data: RecordData::Ptr(ptr_domain) })
    }

    /// Adds an SRV answer.
    pub fn add_srv(self, name: String, priority: u16, weight: u16, port: u16, target: String, ttl: u32) -> (r: ResponseBuilder)
        ensures
            r.built().answers@ == self.built().answers@.push(in_record(name, RecordType::SRV, ttl, RecordData::Srv { priority, weight, port, target })),
            r.built().flags == self.built().flags,
            r.built().questions@ == self.built().questions@,
            r.built().authorities@ == self.built().authorities@,
            r.built().additionals@ == self.built().additionals@,
    {
        self.add(
            MdnsRecord {
                name,
                rtype: RecordType::SRV,
                rclass: RecordClass::IN,
                ttl,
                data: RecordData::Srv { priority, weight, port, target },
            },
        )
    }

    /// Adds an A answer.
    pub fn add_a(self, name: String, addr: [u8; 4], ttl: u32) -> (r: ResponseBuilder)
        ensures
            r.built().answers@ == self.built().answers@.push(in_record(name, RecordType::A, ttl, RecordData::A(addr))),
            r.built().flags == self.built().flags,
            r.built().questions@ == self.built().questions@,
            r.built().authorities@ == self.built().authorities@,
            r.built().additionals@ == self.built().additionals@,
    {
        self.add(MdnsRecord { name, rtype: RecordType::A, rclass: RecordClass::IN, ttl, data: RecordData::A(addr) })
    }

    /// Adds an AAAA answer.
    pub fn add_aaaa(self, name: String, addr: [u8; 16], ttl: u32) -> (r: ResponseBuilder)
        ensures
            r.built().answers@ == self.built().answers@.push(in_record(name, RecordType::AAAA, ttl, RecordData::Aaaa(addr))),
            r.built().flags == self.built().flags,
            r.built().questions@ == self.built().questions@,
            r.built().authorities@ == self.built().authorities@,
            r.built().additionals@ == self.built().additionals@,
    {
        self.add(MdnsRecord { name, rtype: RecordType::AAAA, rclass: RecordClass::IN, ttl, data: RecordData::Aaaa(addr) })
    }

    /// Adds a TXT answer.
    pub fn add_txt(self, name: String, txt_data: Vec<String>, ttl: u32) -> (r: ResponseBuilder)
        ensures
            r.built().answers@ == self.built().answers@.push(in_record(name, RecordType::TXT, ttl, RecordData::Txt(txt_data))),
            r.built().flags == self.built().flags,
            r.built().questions@ == self.built().questions@,
            r.built().authorities@ == self.built().authorities@,
            r.built().additionals@ == self.built().additionals@,
    {
        self.add(MdnsRecord { name, rtype: RecordType::TXT, rclass: RecordClass::IN, ttl, data: RecordData::Txt(txt_data) })
    }

    /// The response.
    pub fn build(self) -> (r: MdnsPacket)
        ensures
            r == self.built(),
    {
        self.packet
    }

    /// The response on the wire.
    pub fn encode(self) -> (r: Result<Vec<u8>, crate::common::error::Error>)
        ensures
            match r {
                Ok(b) => enc_packet(self.built()@) == Some(b@),
                Err(_) => enc_packet(self.built()@) is None,
            },
    {
        self.packet.encode()
    }
}

impl Default for ResponseBuilder {
    fn default() -> (r: ResponseBuilder)
        ensures
            r.built().flags == 0x8000,
            r.built().questions@.len() == 0,
            r.built().answers@.len() == 0,
            r.built().authorities@.len() == 0,
            r.built().additionals@.len() == 0,
    {
        ResponseBuilder::new()
    }
}

/// Builds service announcements.
pub struct AnnouncementBuilder {
    inner: ResponseBuilder,
}

/// The records announcing a service: a PTR from `type.domain.` to the
/// instance `instance.type.domain.`, the instance's SRV pointing at
/// `hostname.` and its TXT, then an A or AAAA record for `hostname.` per
/// address.
pub open spec fn service_records(
    instance: Seq<char>,
    service_type: Seq<char>,
    domain: Seq<char>,
    hostname: Seq<char>,
    port: u16,
    txt: Seq<String>,
    addresses: Seq<(IpAddress, u32)>,
    ttl: u32,
) -> Seq<(Seq<char>, RecordType, u32)> {
    let srv = instance + "."@ + service_type + "."@ + domain + "."@;
    let host = hostname + "."@;
    seq![(service_type + "."@ + domain + "."@, RecordType::PTR, ttl), (srv, RecordType::SRV, ttl), (srv, RecordType::TXT, ttl)]
        + addr_heads(host, addresses)
}

/// The address record for `host` of one address: A or AAAA by family, with
/// the address's lifetime.
pub open spec fn addr_head(host: Seq<char>, a: (IpAddress, u32)) -> (Seq<char>, RecordType, u32) {
    (
        host,
        match a.0 {
            IpAddress::V4(_) => RecordType::A,
            IpAddress::V6(_) => RecordType::AAAA,
        },
        a.1,
    )
}

/// The address records for `host`, one per address.
pub open spec fn addr_heads(host: Seq<char>, s: Seq<(IpAddress, u32)>) -> Seq<(Seq<char>, RecordType, u32)> {
    s.map_values(|a: (IpAddress, u32)| addr_head(host, a))
}

/// The name, type and lifetime of each record.
pub open spec fn record_heads(s: Seq<MdnsRecord>) -> Seq<(Seq<char>, RecordType, u32)> {
    s.map_values(|r: MdnsRecord| (r.name@, r.rtype, r.ttl))
}

impl AnnouncementBuilder {
    /// The answers so far.
    pub closed spec fn answers(&self) -> Seq<MdnsRecord> {
        self.inner.built().answers@
    }

    /// An empty announcement.
    pub fn new() -> (r: AnnouncementBuilder)
        ensures
            r.answers().len() == 0,
    {
        AnnouncementBuilder { inner: ResponseBuilder::new() }
    }

    /// Adds the records announcing a service (see `service_records`).
    pub fn add_service(
        self,
        instance_name: String,
        service_type: String,
        domain: String,
        hostname: String,
        port: u16,
        txt_records: Vec<String>,
        addresses: Vec<(IpAddress, u32)>,
        ttl: u32,
    ) -> (r: Result<AnnouncementBuilder, crate::common::error::Error>)
        ensures
            r matches Ok(b) && record_heads(b.answers()) == record_heads(self.answers()) + service_records(
                instance_name@,
                service_type@,
                domain@,
                hostname@,
                port,
                txt_records@,
                addresses@,
                ttl,
            ),
    {
        let ghost start = record_heads(self.answers());
        let t = concat(service_type.as_str(), ".");
        let t = concat(t.as_str(), domain.as_str());
        let ptr_name = concat(t.as_str(), ".");
        let s = concat(instance_name.as_str(), ".");
        let s = concat(s.as_str(), ptr_name.as_str());
        let srv_name = s;
        let host = concat(hostname.as_str(), ".");
        let mut inner = self.inner;
        inner = inner.add_ptr(ptr_name, srv_name.clone(), ttl);
        inner = inner.add_srv(srv_name.clone(), 0, 0, port, host.clone(), ttl);
        inner = inner.add_txt(srv_name.clone(), txt_records, ttl);
        let ghost srv_v = instance_name@ + "."@ + service_type@ + "."@ + domain@ + "."@;
        assert(srv_name@ =~= srv_v);
        let ghost head = start + seq![
            (service_type@ + "."@ + domain@ + "."@, RecordType::PTR, ttl),
            (srv_v, RecordType::SRV, ttl),
            (srv_v, RecordType::TXT, ttl),
        ];
        assert(record_heads(inner.built().answers@) =~= head);
        let ghost addrs = addresses@;
        let ghost host_v = hostname@ + "."@;
        let mut i: usize = 0;
        while i < addresses.len()
            invariant
                addrs == addresses@,
                host@ == host_v,
                i <= addrs.len(),
                record_heads(inner.built().answers@) == head + addr_heads(host_v, addrs.take(i as int)),
            decreases addresses.len() - i,
        {
            let (addr, addr_ttl) = addresses[i];
            let h = host.clone();
            let ghost before = record_heads(inner.built().answers@);
            match addr {
                IpAddress::V4(v4) => {
                    inner = inner.add_a(h, v4, addr_ttl);
                },
                IpAddress::V6(v6) => {
                    inner = inner.add_aaaa(h, v6, addr_ttl);
                },
            }
            assert(record_heads(inner.built().answers@) =~= before.push(addr_head(host_v, addrs[i as int])));
            i = i + 1;
            assert(addr_heads(host_v, addrs.take(i as int)) =~= addr_heads(host_v, addrs.take(i - 1)).push(addr_head(host_v, addrs[i - 1])));
            assert(record_heads(inner.built().answers@) =~= head + addr_heads(host_v, addrs.take(i as int)));
        }
        assert(addrs.take(i as int) =~= addrs);
        let r = AnnouncementBuilder { inner };
        assert(record_heads(r.answers()) =~= start + service_records(
            instance_name@,
            service_type@,
            domain@,
            hostname@,
            port,
            txt_records@,
            addresses@,
            ttl,
        ));
        Ok(r)
    }
}

impl AnnouncementBuilder {
    /// The message built so far.
    pub closed spec fn message(&self) -> MdnsPacket {
        self.inner.built()
    }

    /// The announcement on the wire.
    pub fn build(self) -> (r: Result<Vec<u8>, crate::common::error::Error>)
        ensures
            match r {
                Ok(b) => enc_packet(self.message()@) == Some(b@),
                Err(_) => enc_packet(self.message()@) is None,
            },
    {
        self.inner.encode()
    }
}

impl Default for AnnouncementBuilder {
    fn default() -> (r: AnnouncementBuilder)
        ensures
            r.answers().len() == 0,
    {
        AnnouncementBuilder::new()
    }
}

/// What an SRV record of a response contributes to `get_srv_target`: its
/// target and its port, when it is an SRV record carrying SRV data.
pub open spec fn srv_entry(r: MdnsRecord) -> Option<(Seq<char>, u16)> {
    if r.rtype == RecordType::SRV {
        match r.data {
            RecordData::Srv { target, port, .. } => Some((target@, port)),
            _ => None,
        }
    } else {
        None
    }
}

/// `get_srv_target` reads each SRV record of the response, in order, as its
/// target and its port: the port field, whatever the priority and weight.
/// Every pair handed back is the target and port of some SRV record, and
/// every SRV record is handed back.
pub proof fn lemma_srv_targets_are_target_and_port(s: Seq<MdnsRecord>)
    ensures
        srv_targets(s) == s.filter_map(|r: MdnsRecord| srv_entry(r)),
        forall|k: int| 0 <= k < srv_targets(s).len() ==> exists|j: int|
            0 <= j < s.len() && #[trigger] srv_entry(s[j]) == Some(#[trigger] srv_targets(s)[k]),
        forall|j: int| 0 <= j < s.len() && (#[trigger] srv_entry(s[j])) is Some ==> srv_targets(s).contains(
            srv_entry(s[j])->0,
        ),
    decreases s.len(),
{
    if s.len() > 0 {
        let t = s.drop_last();
        lemma_srv_targets_are_target_and_port(t);
        let r = srv_targets(s);
        let rt = srv_targets(t);
        assert(r.subrange(0, rt.len() as int) =~= rt);
        assert forall|k: int| 0 <= k < r.len() implies exists|j: int|
            0 <= j < s.len() && #[trigger] srv_entry(s[j]) == Some(#[trigger] r[k]) by {
            if k < rt.len() {
                assert(r[k] == rt[k]);
                let j = choose|j: int| 0 <= j < t.len() && #[trigger] srv_entry(t[j]) == Some(rt[k]);
                assert(s[j] == t[j]);
            } else {
                assert(s[s.len() - 1] == s.last());
                assert(srv_entry(s[s.len() - 1]) == Some(r[k]));
            }
        }
        assert forall|j: int| 0 <= j < s.len() && (#[trigger] srv_entry(s[j])) is Some implies r.contains(
            srv_entry(s[j])->0,
        ) by {
            if j < t.len() {
                assert(s[j] == t[j]);
                assert(srv_entry(t[j]) is Some);
                let k = choose|k: int| 0 <= k < rt.len() && rt[k] == srv_entry(t[j])->0;
                assert(r[k] == rt[k]);
            } else {
                assert(s[j] == s.last());
                assert(r[rt.len() as int] == srv_entry(s[j])->0);
            }
        }
    }
}

} // verus!
