//! The crate's view of DNS messages on the wire, through `hickory_proto`.
//!
//! A message value is opaque; these names track what the crate put into
//! it: the header fields it sets, the questions and answers it adds (each
//! remembered as the ASCII text and plain values handed in), and whether
//! the message was built by this module alone (`msg_clean`), which pins
//! every part these names do not track to its default.

use vstd::prelude::*;

verus! {

use crate::dns::{DnsHeaderV, DnsQuestionV, DnsAnswerV, DnsQueryV, DnsQuery, QType};

#[verifier::external_type_specification]
#[verifier::external_body]
pub struct ExMessage(hickory_proto::op::Message);

/// The header fields of a message that this crate sets.
pub uninterp spec fn msg_header(m: hickory_proto::op::Message) -> DnsHeaderV;

/// The question section, each question as the ASCII name text and wire
/// type it was added with.
pub uninterp spec fn msg_question(m: hickory_proto::op::Message) -> Seq<DnsQuestionV>;

/// The answer section, each record as the ASCII name text, TTL and
/// address it was added with.
pub uninterp spec fn msg_answers(m: hickory_proto::op::Message) -> Seq<DnsAnswerV>;

/// The message was built by this module's functions alone: every part not
/// tracked by the names above is at its default.
pub uninterp spec fn msg_clean(m: hickory_proto::op::Message) -> bool;

/// What `hickory_proto` encodes a clean message with this header, question
/// section and answer section into, when it encodes it at all.
pub uninterp spec fn dns_wire(
    h: DnsHeaderV,
    q: Seq<DnsQuestionV>,
    a: Seq<DnsAnswerV>,
) -> Option<Seq<u8>>;

/// What `hickory_proto` decodes out of a request packet: the header fields
/// and first query this crate reads, or nothing for a packet it rejects or
/// one without a query.
pub uninterp spec fn parsed_query(p: Seq<u8>) -> Option<DnsQueryV>;

/// Whether `hickory_proto` accepts this text as a DNS name.
pub uninterp spec fn name_ok(s: Seq<char>) -> bool;

/// Relies on `Message::from_vec` and the `Message` and `Metadata` fields:
/// decoding is a function of the bytes alone; the id, opcode (as its wire
/// value) and recursion-desired flag come from the header, the name (as
/// ASCII text) and type from the first query. A packet that does not
/// decode, or decodes without a query, yields nothing.
#[verifier::external_body]
pub(crate) fn decode_query(packet: &[u8]) -> (r: Option<DnsQuery>)
    ensures
        r matches Some(q) ==> parsed_query(packet@) == Some(q@),
        r is None ==> parsed_query(packet@) is None,
{
    let m = hickory_proto::op::Message::from_vec(packet).ok()?;
    let q = m.queries.first()?;
    let qtype = match q.query_type() {
        hickory_proto::rr::RecordType::A => QType::A,
        hickory_proto::rr::RecordType::AAAA => QType::Aaaa,
        hickory_proto::rr::RecordType::ANY => QType::Any,
        other => QType::Other(u16::from(other)),
    };
    let (id, op, rd) = (m.metadata.id, u8::from(m.metadata.op_code), m.metadata.recursion_desired);
    Some(DnsQuery { id, op, rd, qname: q.name().to_ascii(), qtype })
}

/// Relies on `Message::new` and the `Metadata` fields: a fresh response
/// message with this id, opcode and recursion-desired flag, marked
/// authoritative with recursion available and no error, no questions and
/// no answers.
#[verifier::external_body]
pub(crate) fn response_message(id: u16, op: u8, rd: bool) -> (m: hickory_proto::op::Message)
    ensures
        msg_header(m) == (DnsHeaderV {
            id,
            response: true,
            op,
            authoritative: true,
            recursion_desired: rd,
            recursion_available: true,
            no_error: true,
        }),
        msg_question(m) == Seq::<DnsQuestionV>::empty(),
        msg_answers(m) == Seq::<DnsAnswerV>::empty(),
        msg_clean(m),
{
    let mut m = hickory_proto::op::Message::new(
        id,
        hickory_proto::op::MessageType::Response,
        hickory_proto::op::OpCode::from_u8(op),
    );
    m.metadata.authoritative = true;
    m.metadata.recursion_desired = rd;
    m.metadata.recursion_available = true;
    m
}

/// Relies on `Name::from_ascii`, `Query::query`, `RecordType::from` and
/// `Message::add_query`: appends one question for this name text and wire
/// type; succeeds exactly when the name text is accepted, and changes
/// nothing otherwise.
#[verifier::external_body]
pub(crate) fn add_question(m: &mut hickory_proto::op::Message, name: &str, qtype: u16) -> (ok: bool)
    ensures
        ok == name_ok(name@),
        msg_header(*final(m)) == msg_header(*old(m)),
        msg_answers(*final(m)) == msg_answers(*old(m)),
        msg_clean(*final(m)) == msg_clean(*old(m)),
        ok ==> msg_question(*final(m)) == msg_question(*old(m)).push(
            DnsQuestionV { name: name@, qtype },
        ),
        !ok ==> msg_question(*final(m)) == msg_question(*old(m)),
{
    let n = match hickory_proto::rr::Name::from_ascii(name) {
        Ok(n) => n,
        Err(_) => return false,
    };
    m.add_query(hickory_proto::op::Query::query(n, hickory_proto::rr::RecordType::from(qtype)));
    true
}

/// Relies on `Name::from_ascii`, `Record::from_rdata` and
/// `Message::add_answer`: appends one `A` record with this name text, TTL
/// and address; succeeds exactly when the name text is accepted, and
/// changes nothing otherwise.
#[verifier::external_body]
pub(crate) fn add_answer_a(m: &mut hickory_proto::op::Message, name: &str, ttl: u32, addr: u32) -> (ok:
    bool)
    ensures
        ok == name_ok(name@),
        msg_header(*final(m)) == msg_header(*old(m)),
        msg_question(*final(m)) == msg_question(*old(m)),
        msg_clean(*final(m)) == msg_clean(*old(m)),
        ok ==> msg_answers(*final(m)) == msg_answers(*old(m)).push(
            DnsAnswerV::A { name: name@, ttl, addr },
        ),
        !ok ==> msg_answers(*final(m)) == msg_answers(*old(m)),
{
    let n = match hickory_proto::rr::Name::from_ascii(name) {
        Ok(n) => n,
        Err(_) => return false,
    };
    let rdata = hickory_proto::rr::RData::A(hickory_proto::rr::rdata::A(addr.into()));
    m.add_answer(hickory_proto::rr::Record::from_rdata(n, ttl, rdata));
    true
}

/// Relies on `Name::from_ascii`, `Record::from_rdata` and
/// `Message::add_answer`: appends one `AAAA` record with this name text,
/// TTL and address; succeeds exactly when the name text is accepted, and
/// changes nothing otherwise.
#[verifier::external_body]
pub(crate) fn add_answer_aaaa(m: &mut hickory_proto::op::Message, name: &str, ttl: u32, addr: u128) -> (
    ok: bool)
    ensures
        ok == name_ok(name@),
        msg_header(*final(m)) == msg_header(*old(m)),
        msg_question(*final(m)) == msg_question(*old(m)),
        msg_clean(*final(m)) == msg_clean(*old(m)),
        ok ==> msg_answers(*final(m)) == msg_answers(*old(m)).push(
            DnsAnswerV::Aaaa { name: name@, ttl, addr },
        ),
        !ok ==> msg_answers(*final(m)) == msg_answers(*old(m)),
{
    let n = match hickory_proto::rr::Name::from_ascii(name) {
        Ok(n) => n,
        Err(_) => return false,
    };
    let rdata = hickory_proto::rr::RData::AAAA(hickory_proto::rr::rdata::AAAA(addr.into()));
    m.add_answer(hickory_proto::rr::Record::from_rdata(n, ttl, rdata));
    true
}

/// Relies on `Message::to_vec`: a clean message encodes as a function of
/// its tracked header, question section and answer section, or fails to
/// encode independently of anything else.
#[verifier::external_body]
pub(crate) fn encode_message(m: &hickory_proto::op::Message) -> (r: Option<Vec<u8>>)
    ensures
        msg_clean(*m) ==> (r matches Some(b) ==> Some(b@) == dns_wire(
            msg_header(*m),
            msg_question(*m),
            msg_answers(*m),
        )),
        msg_clean(*m) && dns_wire(msg_header(*m), msg_question(*m), msg_answers(*m)) is Some
            ==> r is Some,
{
    m.to_vec().ok()
}

} // verus!
