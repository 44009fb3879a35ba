//! The DNS responder, end to end over real wire bytes: local answers,
//! the forward decision, and the spoof-rejecting forward walk.

use hickory_proto::op::{Message, MessageType, OpCode, Query, ResponseCode};
use hickory_proto::rr::rdata::{A, AAAA};
use hickory_proto::rr::{Name, RData, RecordType};
use sptth::addr::parse_socket_addr;
use sptth::config::DomainAddrs;
use sptth::dns::{handle_dns_packet, DnsAction, ForwardEvent, ForwardMachine, ForwardStep};
use sptth::table::DomainMap;

fn foo_records() -> DomainMap<DomainAddrs> {
    let mut records: DomainMap<DomainAddrs> = DomainMap::new();
    let inserted = records.insert(
        "foo.dev".to_string(),
        DomainAddrs { ipv4: vec![0x0A000001], ipv6: vec![] },
    );
    assert!(inserted);
    records
}

fn query_bytes(name: &str, qtype: RecordType, id: u16) -> Vec<u8> {
    let mut m = Message::new(id, MessageType::Query, OpCode::Query);
    m.metadata.recursion_desired = true;
    m.add_query(Query::query(Name::from_ascii(name).unwrap(), qtype));
    m.to_vec().unwrap()
}

#[test]
fn local_a_query_answers_from_zone() {
    let records = foo_records();
    let packet = query_bytes("foo.dev.", RecordType::A, 4242);
    let reply = match handle_dns_packet(&packet, &records, 30) {
        DnsAction::Reply(b) => b,
        _ => panic!("expected a local reply"),
    };
    assert_ne!(reply, packet);
    let m = Message::from_vec(&reply).unwrap();
    assert_eq!(m.metadata.id, 4242);
    assert_eq!(m.metadata.message_type, MessageType::Response);
    assert!(m.metadata.authoritative);
    assert!(m.metadata.recursion_available);
    assert!(m.metadata.recursion_desired);
    assert_eq!(m.metadata.response_code, ResponseCode::NoError);
    assert_eq!(m.queries.len(), 1);
    assert_eq!(m.queries[0].name().to_ascii(), "foo.dev.");
    assert_eq!(m.queries[0].query_type(), RecordType::A);
    assert_eq!(m.answers.len(), 1);
    assert_eq!(m.answers[0].ttl, 30);
    match &m.answers[0].data {
        RData::A(a) => assert_eq!(a, &A::new(10, 0, 0, 1)),
        other => panic!("expected an A record, got {other:?}"),
    }
}

#[test]
fn local_aaaa_on_a_only_record_is_empty_noerror() {
    let records = foo_records();
    let packet = query_bytes("foo.dev.", RecordType::AAAA, 7);
    let reply = match handle_dns_packet(&packet, &records, 30) {
        DnsAction::Reply(b) => b,
        _ => panic!("expected a local reply"),
    };
    let m = Message::from_vec(&reply).unwrap();
    assert_eq!(m.metadata.id, 7);
    assert_eq!(m.metadata.response_code, ResponseCode::NoError);
    assert_eq!(m.answers.len(), 0);
}

#[test]
fn local_any_query_lists_a_before_aaaa() {
    let mut records: DomainMap<DomainAddrs> = DomainMap::new();
    records.insert(
        "both.dev".to_string(),
        DomainAddrs { ipv4: vec![0x0A000001, 0x0A000002], ipv6: vec![1] },
    );
    let packet = query_bytes("both.dev.", RecordType::ANY, 9);
    let reply = match handle_dns_packet(&packet, &records, 60) {
        DnsAction::Reply(b) => b,
        _ => panic!("expected a local reply"),
    };
    let m = Message::from_vec(&reply).unwrap();
    assert_eq!(m.answers.len(), 3);
    match &m.answers[0].data {
        RData::A(a) => assert_eq!(a, &A::new(10, 0, 0, 1)),
        other => panic!("expected an A record, got {other:?}"),
    }
    match &m.answers[1].data {
        RData::A(a) => assert_eq!(a, &A::new(10, 0, 0, 2)),
        other => panic!("expected an A record, got {other:?}"),
    }
    match &m.answers[2].data {
        RData::AAAA(a) => assert_eq!(a, &AAAA::new(0, 0, 0, 0, 0, 0, 0, 1)),
        other => panic!("expected an AAAA record, got {other:?}"),
    }
    assert_eq!(m.answers[0].ttl, 60);
}

#[test]
fn unknown_domain_is_forwarded() {
    let records = foo_records();
    let packet = query_bytes("bar.dev.", RecordType::A, 1);
    assert!(matches!(handle_dns_packet(&packet, &records, 30), DnsAction::Forward));
}

#[test]
fn non_address_qtype_is_forwarded_even_for_local_domain() {
    let records = foo_records();
    let packet = query_bytes("foo.dev.", RecordType::TXT, 2);
    assert!(matches!(handle_dns_packet(&packet, &records, 30), DnsAction::Forward));
}

#[test]
fn uppercase_and_trailing_dot_still_hit_the_zone() {
    let records = foo_records();
    let packet = query_bytes("FOO.Dev.", RecordType::A, 3);
    assert!(matches!(handle_dns_packet(&packet, &records, 30), DnsAction::Reply(_)));
}

#[test]
fn malformed_packet_is_dropped() {
    let records = foo_records();
    assert!(matches!(handle_dns_packet(&[], &records, 30), DnsAction::Drop));
    assert!(matches!(handle_dns_packet(&[0xFF, 0x01, 0x02], &records, 30), DnsAction::Drop));
}

#[test]
fn packet_without_query_is_dropped() {
    let records = foo_records();
    let m = Message::new(5, MessageType::Query, OpCode::Query);
    let packet = m.to_vec().unwrap();
    assert!(matches!(handle_dns_packet(&packet, &records, 30), DnsAction::Drop));
}

#[test]
fn forward_rejects_spoofed_source_then_accepts_upstream() {
    let upstream = parse_socket_addr("1.1.1.1:53").unwrap();
    let mut machine = ForwardMachine::new(vec![upstream]);
    assert!(!machine.done());
    assert_eq!(machine.current(), upstream);
    let spoofed = parse_socket_addr("9.9.9.9:53").unwrap();
    assert_eq!(machine.on_event(ForwardEvent::Packet { from: spoofed }), ForwardStep::Discard);
    assert!(!machine.done());
    assert_eq!(machine.on_event(ForwardEvent::Packet { from: upstream }), ForwardStep::Accept);
}

#[test]
fn forward_walks_upstreams_in_order() {
    let first = parse_socket_addr("1.1.1.1:53").unwrap();
    let second = parse_socket_addr("8.8.8.8:53").unwrap();
    let mut machine = ForwardMachine::new(vec![first, second]);
    assert_eq!(machine.current(), first);
    assert_eq!(machine.on_event(ForwardEvent::TimedOut), ForwardStep::NextUpstream);
    assert!(!machine.done());
    assert_eq!(machine.current(), second);
    // A reply from the first upstream is no longer acceptable.
    assert_eq!(machine.on_event(ForwardEvent::Packet { from: first }), ForwardStep::Discard);
    assert_eq!(machine.on_event(ForwardEvent::RecvFailed), ForwardStep::NextUpstream);
    assert!(machine.done());
}

#[test]
fn forward_send_failure_moves_on() {
    let first = parse_socket_addr("1.1.1.1:53").unwrap();
    let mut machine = ForwardMachine::new(vec![first]);
    assert_eq!(machine.on_event(ForwardEvent::SendFailed), ForwardStep::NextUpstream);
    assert!(machine.done());
}
