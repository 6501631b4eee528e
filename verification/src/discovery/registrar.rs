//! Announcing a service over mDNS: its instance and host names, the
//! announcement, response and goodbye messages, and which queries to
//! answer.

use vstd::prelude::*;
use crate::common::config::ServiceConfig;
use crate::common::error::Error;
use crate::common::text::{concat, ends_with, trim_end_dots, first_segment, trim_dots, before_first, str_eq};
use crate::common::txt::TxtRecord;
use crate::discovery::types::IpAddress;
use crate::mdns::packet::{MdnsPacket, MdnsRecord, RecordData, RecordType, RecordClass, flags_response};
use crate::mdns::wire::{DataView, RecordView, records_view, QuestionView, questions_view};

verus! {

/// The instance's full name: `name.type.local`.
pub open spec fn instance_name_of(c: ServiceConfig) -> Seq<char> {
    c.service_name@ + "."@ + c.service_type@ + ".local"@
}

/// The service instance name of a configuration.
pub fn service_instance_name(config: &ServiceConfig) -> (r: String)
    ensures
        r@ == instance_name_of(*config),
{
    let a = concat(config.service_name.as_str(), ".");
    let b = concat(a.as_str(), config.service_type.as_str());
    concat(b.as_str(), ".local")
}

/// The host name announced: the configured one, else the instance name up
/// to its first dot, with `.local` after it.
pub open spec fn host_name_of(c: ServiceConfig, instance: Seq<char>) -> Seq<char> {
    match c.hostname {
        Some(h) => h@ + ".local"@,
        None => before_first(instance, '.') + ".local"@,
    }
}

fn host_name(config: &ServiceConfig, service_instance: &str) -> (r: String)
    ensures
        r@ == host_name_of(*config, service_instance@),
{
    match &config.hostname {
        Some(h) => concat(h.as_str(), ".local"),
        None => {
            let first = first_segment(service_instance, '.');
            concat(first.as_str(), ".local")
        },
    }
}

/// The TXT strings of the records: `key=value` for each entry, in order.
pub open spec fn txt_strings_of(es: Seq<(Seq<char>, Seq<char>)>) -> Seq<Seq<char>> {
    es.map_values(|e: (Seq<char>, Seq<char>)| e.0 + "="@ + e.1)
}

fn txt_strings(txt: &TxtRecord) -> (r: Vec<String>)
    ensures
        crate::mdns::wire::strings_view(r@) == txt_strings_of(txt@),
{
    let mut out: Vec<String> = Vec::new();
    let mut i: usize = 0;
    while i < txt.len()
        invariant
            i <= txt@.len(),
            crate::mdns::wire::strings_view(out@) == txt_strings_of(txt@.take(i as int)),
        decreases txt@.len() - i,
    {
        let (k, v) = txt.entry(i);
        let a = concat(k.as_str(), "=");
        let s = concat(a.as_str(), v.as_str());
        let ghost before = crate::mdns::wire::strings_view(out@);
        out.push(s);
        assert(crate::mdns::wire::strings_view(out@) =~= before.push(k@ + "="@ + v@));
        i = i + 1;
        assert(txt_strings_of(txt@.take(i as int)) =~= txt_strings_of(txt@.take(i - 1)).push(txt@[i - 1].0 + "="@ + txt@[i - 1].1));
        assert(crate::mdns::wire::strings_view(out@) =~= txt_strings_of(txt@.take(i as int)));
    }
    assert(txt@.take(i as int) =~= txt@);
    out
}

/// An address record for `host`: A for IPv4, AAAA for IPv6.
pub open spec fn address_record(host: Seq<char>, ip: IpAddress, ttl: u32) -> RecordView {
    match ip {
        IpAddress::V4(a) => RecordView { name: host, rtype: RecordType::A, rclass: RecordClass::IN, ttl, data: DataView::A(a@) },
        IpAddress::V6(a) => RecordView { name: host, rtype: RecordType::AAAA, rclass: RecordClass::IN, ttl, data: DataView::Aaaa(a@) },
    }
}

/// The address records for `host`, one per address.
pub open spec fn address_records(host: Seq<char>, ips: Seq<IpAddress>, ttl: u32) -> Seq<RecordView> {
    ips.map_values(|ip: IpAddress| address_record(host, ip, ttl))
}

/// The PTR record from `type.local` to the instance.
pub open spec fn ptr_record(c: ServiceConfig, instance: Seq<char>, ttl: u32) -> RecordView {
    RecordView {
        name: c.service_type@ + ".local"@,
        rtype: RecordType::PTR,
        rclass: RecordClass::IN,
        ttl,
        data: DataView::Ptr(instance),
    }
}

/// The SRV record of the instance, pointing at the host and port.
pub open spec fn srv_record(c: ServiceConfig, instance: Seq<char>, ttl: u32) -> RecordView {
    RecordView {
        name: instance,
        rtype: RecordType::SRV,
        rclass: RecordClass::IN,
        ttl,
        data: DataView::Srv { priority: 0, weight: 0, port: c.port, target: host_name_of(c, instance) },
    }
}

/// The TXT record of the instance, when it has strings.
pub open spec fn txt_records_of(c: ServiceConfig, instance: Seq<char>) -> Seq<RecordView> {
    let ss = txt_strings_of(c.txt_records@);
    if ss.len() == 0 {
        Seq::empty()
    } else {
        seq![RecordView { name: instance, rtype: RecordType::TXT, rclass: RecordClass::IN, ttl: c.ttl, data: DataView::Txt(ss) }]
    }
}

fn push_address_records(out: &mut Vec<MdnsRecord>, host: &String, ips: &[IpAddress], ttl: u32)
    ensures
        records_view(final(out)@) == records_view(old(out)@) + address_records(host@, ips@, ttl),
{
    let ghost start = records_view(out@);
    let mut i: usize = 0;
    while i < ips.len()
        invariant
            i <= ips@.len(),
            records_view(out@) == start + address_records(host@, ips@.take(i as int), ttl),
        decreases ips.len() - i,
    {
        let ghost before = records_view(out@);
        match ips[i] {
            IpAddress::V4(a) => {
                out.push(MdnsRecord { name: host.clone(), rtype: RecordType::A, rclass: RecordClass::IN, ttl, data: RecordData::A(a) });
            },
            IpAddress::V6(a) => {
                out.push(MdnsRecord { name: host.clone(), rtype: RecordType::AAAA, rclass: RecordClass::IN, ttl, data: RecordData::Aaaa(a) });
            },
        }
        assert(records_view(out@) =~= before.push(address_record(host@, ips@[i as int], ttl)));
        i = i + 1;
        assert(address_records(host@, ips@.take(i as int), ttl) =~= address_records(host@, ips@.take(i - 1), ttl).push(
            address_record(host@, ips@[i - 1], ttl),
        ));
    }
    assert(ips@.take(i as int) =~= ips@);
}

fn ptr_of(config: &ServiceConfig, service_instance: &str, ttl: u32) -> (r: MdnsRecord)
    ensures
        r@ == ptr_record(*config, service_instance@, ttl),
{
    MdnsRecord {
        name: concat(config.service_type.as_str(), ".local"),
        rtype: RecordType::PTR,
        rclass: RecordClass::IN,
        ttl,
        data: RecordData::Ptr(service_instance.to_owned()),
    }
}

fn srv_of(config: &ServiceConfig, service_instance: &str, host: &String, ttl: u32) -> (r: MdnsRecord)
    requires
        host@ == host_name_of(*config, service_instance@),
    ensures
        r@ == srv_record(*config, service_instance@, ttl),
{
    MdnsRecord {
        name: service_instance.to_owned(),
        rtype: RecordType::SRV,
        rclass: RecordClass::IN,
        ttl,
        data: RecordData::Srv { priority: 0, weight: 0, port: config.port, target: host.clone() },
    }
}

fn push_txt_record(out: &mut Vec<MdnsRecord>, config: &ServiceConfig, service_instance: &str)
    ensures
        records_view(final(out)@) == records_view(old(out)@) + txt_records_of(*config, service_instance@),
{
    let strings = txt_strings(&config.txt_records);
    if strings.len() > 0 {
        let ghost before = records_view(out@);
        let ghost sv = strings@.map_values(|s: String| s@);
        out.push(MdnsRecord {
            name: service_instance.to_owned(),
            rtype: RecordType::TXT,
            rclass: RecordClass::IN,
            ttl: config.ttl,
            data: RecordData::Txt(strings),
        });
        assert(crate::mdns::wire::strings_view(out@.last().data->Txt_0@) =~= sv);
        assert(records_view(out@) =~= before + txt_records_of(*config, service_instance@));
    } else {
        assert(txt_strings_of(config.txt_records@).len() == 0);
        assert(records_view(out@) =~= records_view(old(out)@) + Seq::<RecordView>::empty());
    }
}

/// The announcement of a service: a response whose answers are the PTR,
/// SRV and (when there are strings) TXT records, and whose additional
/// records give the host's addresses.
pub fn build_announcement_packet_with_txt(
    config: &ServiceConfig,
    service_instance: &str,
    local_ips: &[IpAddress],
) -> (r: Result<MdnsPacket, Error>)
    ensures
        r matches Ok(p) && flags_response(p.flags) && p.questions@.len() == 0 && p.authorities@.len() == 0
            && records_view(p.answers@) == seq![ptr_record(*config, service_instance@, config.ttl), srv_record(*config, service_instance@, config.ttl)]
            + txt_records_of(*config, service_instance@) && records_view(p.additionals@) == address_records(
            host_name_of(*config, service_instance@),
            local_ips@,
            config.ttl,
        ),
{
    let mut packet = MdnsPacket::response();
    let host = host_name(config, service_instance);
    packet.answers.push(ptr_of(config, service_instance, config.ttl));
    packet.answers.push(srv_of(config, service_instance, &host, config.ttl));
    assert(records_view(packet.answers@) =~= seq![ptr_record(*config, service_instance@, config.ttl), srv_record(*config, service_instance@, config.ttl)]);
    push_txt_record(&mut packet.answers, config, service_instance);
    assert(records_view(packet.additionals@) =~= Seq::<RecordView>::empty());
    push_address_records(&mut packet.additionals, &host, local_ips, config.ttl);
    assert(records_view(packet.additionals@) =~= address_records(host@, local_ips@, config.ttl));
    Ok(packet)
}

/// The answer to a query: a response whose answer is the PTR record and
/// whose additional records are the SRV, TXT (when there are strings) and
/// address records.
pub fn build_response_packet_with_txt(
    config: &ServiceConfig,
    service_instance: &str,
    local_ips: &[IpAddress],
) -> (r: Result<MdnsPacket, Error>)
    ensures
        r matches Ok(p) && flags_response(p.flags) && p.questions@.len() == 0 && p.authorities@.len() == 0
            && records_view(p.answers@) == seq![ptr_record(*config, service_instance@, config.ttl)]
            && records_view(p.additionals@) == seq![srv_record(*config, service_instance@, config.ttl)]
            + txt_records_of(*config, service_instance@) + address_records(
            host_name_of(*config, service_instance@),
            local_ips@,
            config.ttl,
        ),
{
    let mut packet = MdnsPacket::response();
    let host = host_name(config, service_instance);
    packet.answers.push(ptr_of(config, service_instance, config.ttl));
    assert(records_view(packet.answers@) =~= seq![ptr_record(*config, service_instance@, config.ttl)]);
    packet.additionals.push(srv_of(config, service_instance, &host, config.ttl));
    assert(records_view(packet.additionals@) =~= seq![srv_record(*config, service_instance@, config.ttl)]);
    push_txt_record(&mut packet.additionals, config, service_instance);
    push_address_records(&mut packet.additionals, &host, local_ips, config.ttl);
    Ok(packet)
}

/// The goodbye of a service: the PTR and SRV records with a lifetime of 0.
pub fn build_goodbye_packet(config: &ServiceConfig, service_instance: &str) -> (r: Result<MdnsPacket, Error>)
    ensures
        r matches Ok(p) && flags_response(p.flags) && p.questions@.len() == 0 && p.authorities@.len() == 0
            && p.additionals@.len() == 0 && records_view(p.answers@) == seq![ptr_record(*config, service_instance@, 0), srv_record(*config, service_instance@, 0)],
{
    let mut packet = MdnsPacket::response();
    let host = host_name(config, service_instance);
    packet.answers.push(ptr_of(config, service_instance, 0));
    packet.answers.push(srv_of(config, service_instance, &host, 0));
    assert(records_view(packet.answers@) =~= seq![ptr_record(*config, service_instance@, 0), srv_record(*config, service_instance@, 0)]);
    Ok(packet)
}

/// Whether a question concerns this service: a PTR for its type (or a name
/// ending in `type.local`), an SRV or TXT for its instance (with or without
/// trailing dots), an A or AAAA for its configured host name (with or
/// without `.local`).
pub open spec fn question_matches(q: QuestionView, c: ServiceConfig, instance: Seq<char>) -> bool {
    match q.qtype {
        RecordType::PTR => q.name == c.service_type@ || {
            let suffix = c.service_type@ + ".local"@;
            suffix.len() <= q.name.len() && q.name.skip(q.name.len() - suffix.len()) == suffix
        },
        RecordType::SRV | RecordType::TXT => q.name == instance || q.name == trim_dots(instance),
        RecordType::A | RecordType::AAAA => match c.hostname {
            Some(h) => q.name == h@ || q.name == h@ + ".local"@,
            None => false,
        },
        _ => false,
    }
}

fn matches_question(q: &crate::mdns::packet::MdnsQuestion, config: &ServiceConfig, service_instance: &str) -> (r: bool)
    ensures
        r == question_matches(q@, *config, service_instance@),
{
    match q.qtype {
        RecordType::PTR => {
            if str_eq(q.name.as_str(), config.service_type.as_str()) {
                return true;
            }
            let suffix = concat(config.service_type.as_str(), ".local");
            ends_with(q.name.as_str(), suffix.as_str())
        },
        RecordType::SRV | RecordType::TXT => {
            if str_eq(q.name.as_str(), service_instance) {
                return true;
            }
            let trimmed = trim_end_dots(service_instance);
            str_eq(q.name.as_str(), trimmed.as_str())
        },
        RecordType::A | RecordType::AAAA => match &config.hostname {
            Some(h) => {
                if str_eq(q.name.as_str(), h.as_str()) {
                    return true;
                }
                let l = concat(h.as_str(), ".local");
                str_eq(q.name.as_str(), l.as_str())
            },
            None => false,
        },
        _ => false,
    }
}

/// Whether a received message asks about this service: it is a query and
/// one of its questions concerns the service.
pub fn should_respond(packet: &MdnsPacket, config: &ServiceConfig, service_instance: &str) -> (r: bool)
    ensures
        r == (!flags_response(packet.flags) && exists|i: int|
            0 <= i < packet.questions@.len() && question_matches(
                #[trigger] questions_view(packet.questions@)[i],
                *config,
                service_instance@,
            )),
{
    if packet.is_response() {
        return false;
    }
    let ghost qs = questions_view(packet.questions@);
    let mut i: usize = 0;
    while i < packet.questions.len()
        invariant
            qs == questions_view(packet.questions@),
            !flags_response(packet.flags),
            i <= packet.questions@.len(),
            forall|j: int| 0 <= j < i ==> !question_matches(#[trigger] qs[j], *config, service_instance@),
        decreases packet.questions.len() - i,
    {
        assert(qs[i as int] == packet.questions@[i as int]@);
        if matches_question(&packet.questions[i], config, service_instance) {
            assert(question_matches(qs[i as int], *config, service_instance@));
            return true;
        }
        i = i + 1;
    }
    assert(!exists|j: int| 0 <= j < qs.len() && question_matches(#[trigger] qs[j], *config, service_instance@));
    false
}

/// The addresses announced: loopback IPv4, and loopback IPv6 when enabled.
pub fn get_local_ip_addresses(enable_ipv6: bool) -> (r: Vec<IpAddress>)
    ensures
        r@.len() == if enable_ipv6 { 2int } else { 1int },
        r@[0] matches IpAddress::V4(a) && a@ == seq![127u8, 0, 0, 1],
        enable_ipv6 ==> (r@[1] matches IpAddress::V6(a) && a@ == seq![0u8, 0, 0, 0, 0, 0, 0, 0, 0, 0, 0, 0, 0, 0, 0, 1]),
{
    let mut ips: Vec<IpAddress> = Vec::new();
    let v4: [u8; 4] = [127u8, 0, 0, 1];
    assert(v4@ =~= seq![127u8, 0, 0, 1]);
    ips.push(IpAddress::V4(v4));
    if enable_ipv6 {
        let v6: [u8; 16] = [0u8, 0, 0, 0, 0, 0, 0, 0, 0, 0, 0, 0, 0, 0, 0, 1];
        assert(v6@ =~= seq![0u8, 0, 0, 0, 0, 0, 0, 0, 0, 0, 0, 0, 0, 0, 0, 1]);
        ips.push(IpAddress::V6(v6));
    }
    ips
}

} // verus!
