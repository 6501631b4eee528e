use sharself::common::config::ServiceConfig;
use sharself::discovery::registrar::{build_goodbye_packet, service_instance_name, should_respond};
use sharself::mdns::packet::{MdnsPacket, MdnsQuestion, MdnsRecord, RecordClass, RecordData, RecordType};
use sharself::mdns::query::{MdnsQuery, QueryType};
use sharself::mdns::response::ResponseBuilder;
use sharself::mdns::wire::NameCompressor;

#[test]
fn record_type_numbers() {
    assert_eq!(RecordType::from_u16(12), Some(RecordType::PTR));
    assert_eq!(RecordType::SRV.to_u16(), 33);
    assert_eq!(RecordType::from_u16(7), None);
    assert_eq!(RecordClass::from_u16(1), Some(RecordClass::IN));
    assert_eq!(RecordClass::ANY.to_u16(), 255);
}

#[test]
fn query_packet_known_bytes() {
    let q = MdnsQuery::query_ptr("_x._tcp.local".to_string());
    let bytes = q.build_packet().encode().unwrap();
    let mut expected = vec![0, 0, 0, 0, 0, 1, 0, 0, 0, 0, 0, 0];
    expected.extend_from_slice(&[2, b'_', b'x', 4, b'_', b't', b'c', b'p', 5, b'l', b'o', b'c', b'a', b'l', 0]);
    expected.extend_from_slice(&[0, 12, 0, 1]);
    assert_eq!(bytes, expected);
}

#[test]
fn packet_roundtrip() {
    let packet = ResponseBuilder::new()
        .add_ptr("_x._tcp.local".into(), "box._x._tcp.local".into(), 120)
        .add_srv("box._x._tcp.local".into(), 0, 0, 8080, "box.local".into(), 120)
        .add_a("box.local".into(), [192, 168, 1, 5], 120)
        .add_txt("box._x._tcp.local".into(), vec!["version=0.1.0".into()], 120)
        .build();
    let bytes = packet.encode().unwrap();
    let back = MdnsPacket::decode(&bytes).unwrap();
    assert!(back.is_response());
    assert_eq!(back.answers.len(), 4);
    assert_eq!(back.answers[0].name, "_x._tcp.local");
    match &back.answers[1].data {
        RecordData::Srv { port, target, .. } => {
            assert_eq!(*port, 8080);
            assert_eq!(target, "box.local");
        }
        other => panic!("unexpected {:?}", other),
    }
    match &back.answers[2].data {
        RecordData::A(a) => assert_eq!(*a, [192, 168, 1, 5]),
        other => panic!("unexpected {:?}", other),
    }
    assert_eq!(back.encode().unwrap(), bytes);
    assert_eq!(packet.size(), bytes.len());
}

#[test]
fn decode_rejects_short_input() {
    assert!(MdnsPacket::decode(&[0, 0, 0]).is_err());
    assert!(MdnsPacket::decode(&[0, 0, 0, 0, 0, 1, 0, 0, 0, 0, 0, 0, 3, b'a']).is_err());
}

#[test]
fn compressed_names_are_followed() {
    let mut c = NameCompressor::new();
    let mut buf = Vec::new();
    c.encode_name("a.local", &mut buf).unwrap();
    let first_len = buf.len();
    assert_eq!(buf, vec![1, b'a', 5, b'l', b'o', b'c', b'a', b'l', 0]);
    c.encode_name("a.local", &mut buf).unwrap();
    assert_eq!(&buf[first_len..], &[0xc0, 0]);
    let (name, next) = c.decode_name(&buf, first_len).unwrap();
    assert_eq!(name, "a.local");
    assert_eq!(next, buf.len());
    let (name0, next0) = c.decode_name(&buf, 0).unwrap();
    assert_eq!(name0, "a.local");
    assert_eq!(next0, first_len);
}

#[test]
fn goodbye_packet_has_zero_ttl() {
    let config = ServiceConfig::new("box".into(), 8080);
    let instance = service_instance_name(&config);
    let p = build_goodbye_packet(&config, &instance).unwrap();
    assert!(p.is_response());
    assert_eq!(p.answers.len(), 2);
    assert!(p.answers.iter().all(|r: &MdnsRecord| r.ttl == 0));
}

#[test]
fn responds_to_questions_for_its_service() {
    let config = ServiceConfig::new("box".into(), 8080);
    let instance = service_instance_name(&config);
    let mut query = MdnsPacket::new();
    query.questions.push(MdnsQuestion {
        name: config.service_type.clone(),
        qtype: RecordType::PTR,
        qclass: RecordClass::IN,
        unicast_response: false,
    });
    assert!(should_respond(&query, &config, &instance));
    let mut other = MdnsPacket::new();
    other.questions.push(MdnsQuestion {
        name: "_other._tcp.local".into(),
        qtype: RecordType::PTR,
        qclass: RecordClass::IN,
        unicast_response: false,
    });
    assert!(!should_respond(&other, &config, &instance));
}

#[test]
fn a_name_written_alone_reads_back() {
    let mut buf = Vec::new();
    NameCompressor::new().encode_name("_shareself._tcp.local", &mut buf).unwrap();
    assert_eq!(NameCompressor::new().decode_name(&buf, 0).unwrap(), ("_shareself._tcp.local".to_string(), buf.len()));
}

#[test]
fn questions_chain_onto_the_query() {
    let mut q = MdnsQuery::new(QueryType::Unicast);
    q.add_question("a.local".to_string(), RecordType::A).add_question("a.local".to_string(), RecordType::AAAA);
    let p = q.build_packet();
    assert_eq!(p.questions.len(), 2);
    assert_eq!(p.questions[0].qtype, RecordType::A);
    assert_eq!(p.questions[1].qtype, RecordType::AAAA);
    assert_eq!(p.questions[1].qclass, RecordClass::IN);
    assert!(p.questions[0].unicast_response && p.questions[1].unicast_response);
    assert_eq!(p.questions[1].name, "a.local");
}
