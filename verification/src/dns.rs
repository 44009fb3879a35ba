//! The DNS responder's decisions: decode the first query of a packet,
//! answer address queries for configured domains from the local zone, and
//! hand everything else to the forwarder, which accepts a reply only from
//! the upstream it asked.

use vstd::prelude::*;

verus! {

use vstd::string::StrSliceExecFns;
use crate::addr::{SockAddr, is_valid_source};
use crate::config::DomainAddrs;
use crate::domain::{normalize_spec, normalize_domain};
use crate::table::DomainMap;
use crate::dnswire::{name_ok, dns_wire, parsed_query, decode_query, response_message,
    add_question, add_answer_a, add_answer_aaaa, encode_message, msg_header, msg_question,
    msg_answers, msg_clean};

/// A query type, as far as the responder distinguishes them.
#[derive(Clone, Copy, Debug, PartialEq, Eq, Structural)]
pub enum QType {
    A,
    Aaaa,
    Any,
    Other(u16),
}

/// The wire value of a query type.
pub open spec fn qtype_wire(q: QType) -> u16 {
    match q {
        QType::A => 1,
        QType::Aaaa => 28,
        QType::Any => 255,
        QType::Other(v) => v,
    }
}

/// Whether a query type is answered from the local zone: address queries
/// and `ANY`.
pub open spec fn is_addr_qtype(q: QType) -> bool {
    q == QType::A || q == QType::Aaaa || q == QType::Any
}

/// The first query of a request packet, as plain values.
pub struct DnsQuery {
    pub id: u16,
    pub op: u8,
    pub rd: bool,
    pub qname: String,
    pub qtype: QType,
}

/// The value of a `DnsQuery`.
pub ghost struct DnsQueryV {
    pub id: u16,
    pub op: u8,
    pub rd: bool,
    pub qname: Seq<char>,
    pub qtype: QType,
}

impl View for DnsQuery {
    type V = DnsQueryV;

    open spec fn view(&self) -> DnsQueryV {
        DnsQueryV {
            id: self.id,
            op: self.op,
            rd: self.rd,
            qname: self.qname@,
            qtype: self.qtype,
        }
    }
}

/// The header of a response message.
pub ghost struct DnsHeaderV {
    pub id: u16,
    pub response: bool,
    pub op: u8,
    pub authoritative: bool,
    pub recursion_desired: bool,
    pub recursion_available: bool,
    pub no_error: bool,
}

/// One question of a message.
pub ghost struct DnsQuestionV {
    pub name: Seq<char>,
    pub qtype: u16,
}

/// One answer record of a response.
pub ghost enum DnsAnswerV {
    A { name: Seq<char>, ttl: u32, addr: u32 },
    Aaaa { name: Seq<char>, ttl: u32, addr: u128 },
}

/// The header of the local answer to a query: the id echoes, the opcode
/// and the recursion-desired flag are copied, the message is an
/// authoritative response with recursion available and no error.
pub open spec fn reply_header(q: DnsQueryV) -> DnsHeaderV {
    DnsHeaderV {
        id: q.id,
        response: true,
        op: q.op,
        authoritative: true,
        recursion_desired: q.rd,
        recursion_available: true,
        no_error: true,
    }
}

/// One `A` answer per IPv4 address, in the record's order.
pub open spec fn a_answers(name: Seq<char>, ttl: u32, v4: Seq<u32>) -> Seq<DnsAnswerV> {
    Seq::new(v4.len(), |i: int| DnsAnswerV::A { name, ttl, addr: v4[i] })
}

/// One `AAAA` answer per IPv6 address, in the record's order.
pub open spec fn aaaa_answers(name: Seq<char>, ttl: u32, v6: Seq<u128>) -> Seq<DnsAnswerV> {
    Seq::new(v6.len(), |i: int| DnsAnswerV::Aaaa { name, ttl, addr: v6[i] })
}

/// The answer section of a local reply: all `A` records for an `A` query,
/// all `AAAA` records for an `AAAA` query, both with the `A` records first
/// for `ANY`, and nothing for every other type.
pub open spec fn local_answers(
    name: Seq<char>,
    ttl: u32,
    v4: Seq<u32>,
    v6: Seq<u128>,
    qtype: QType,
) -> Seq<DnsAnswerV> {
    match qtype {
        QType::A => a_answers(name, ttl, v4),
        QType::Aaaa => aaaa_answers(name, ttl, v6),
        QType::Any => a_answers(name, ttl, v4) + aaaa_answers(name, ttl, v6),
        QType::Other(_) => Seq::empty(),
    }
}

/// For a record with `v4` and `v6` addresses: an `A` query yields exactly
/// one answer per IPv4 address with the configured TTL; an `AAAA` query one
/// per IPv6 address; `ANY` yields both with every `A` before every `AAAA`.
pub proof fn lemma_local_answers_shape(
    name: Seq<char>,
    ttl: u32,
    v4: Seq<u32>,
    v6: Seq<u128>,
    qtype: QType,
)
    ensures
        qtype == QType::A ==> local_answers(name, ttl, v4, v6, qtype).len() == v4.len()
            && (forall|i: int|
            0 <= i < v4.len() ==> local_answers(name, ttl, v4, v6, qtype)[i] == DnsAnswerV::A {
                name,
                ttl,
                addr: v4[i],
            }),
        qtype == QType::Aaaa ==> local_answers(name, ttl, v4, v6, qtype).len() == v6.len()
            && (forall|i: int|
            0 <= i < v6.len() ==> local_answers(name, ttl, v4, v6, qtype)[i] == DnsAnswerV::Aaaa {
                name,
                ttl,
                addr: v6[i],
            }),
        qtype == QType::Any ==> local_answers(name, ttl, v4, v6, qtype).len() == v4.len()
            + v6.len() && (forall|i: int|
            0 <= i < v4.len() ==> local_answers(name, ttl, v4, v6, qtype)[i] == DnsAnswerV::A {
                name,
                ttl,
                addr: v4[i],
            }) && (forall|i: int|
            v4.len() <= i < v4.len() + v6.len() ==> local_answers(name, ttl, v4, v6, qtype)[i]
                == DnsAnswerV::Aaaa { name, ttl, addr: v6[i - v4.len()] }),
        qtype matches QType::Other(_) ==> local_answers(name, ttl, v4, v6, qtype).len() == 0,
{
}

/// Builds and encodes the local answer to `query`: the reply header echoes
/// the query, the question section echoes the question, and the answers
/// are `local_answers` over the record's addresses under the normalized
/// name. Fails only when the name is rejected or the message cannot be
/// encoded.
pub fn local_response(query: &DnsQuery, norm_name: &str, ttl: u32, addrs: &DomainAddrs) -> (r:
    Option<Vec<u8>>)
    ensures
        r matches Some(b) ==> name_ok(query.qname@) && Some(b@) == dns_wire(
            reply_header(query@),
            seq![DnsQuestionV { name: query.qname@, qtype: qtype_wire(query.qtype) }],
            local_answers(norm_name@, ttl, addrs.ipv4@, addrs.ipv6@, query.qtype),
        ),
        name_ok(query.qname@) && name_ok(norm_name@) && dns_wire(
            reply_header(query@),
            seq![DnsQuestionV { name: query.qname@, qtype: qtype_wire(query.qtype) }],
            local_answers(norm_name@, ttl, addrs.ipv4@, addrs.ipv6@, query.qtype),
        ) is Some ==> r is Some,
{
    let mut m = response_message(query.id, query.op, query.rd);
    let qt_wire: u16 = match query.qtype {
        QType::A => 1,
        QType::Aaaa => 28,
        QType::Any => 255,
        QType::Other(v) => v,
    };
    if !add_question(&mut m, query.qname.as_str(), qt_wire) {
        return None;
    }
    let ghost hdr = reply_header(query@);
    let ghost qsec = seq![DnsQuestionV { name: query.qname@, qtype: qtype_wire(query.qtype) }];
    assert(msg_header(m) == hdr);
    assert(msg_question(m) =~= qsec);
    assert(msg_clean(m));
    let do_a = match query.qtype {
        QType::A => true,
        QType::Any => true,
        _ => false,
    };
    let do_aaaa = match query.qtype {
        QType::Aaaa => true,
        QType::Any => true,
        _ => false,
    };
    if do_a {
        let n = addrs.ipv4.len();
        let mut i: usize = 0;
        while i < n
            invariant
                0 <= i <= n,
                n == addrs.ipv4@.len(),
                msg_clean(m),
                msg_header(m) == hdr,
                msg_question(m) == qsec,
                msg_answers(m) =~= a_answers(norm_name@, ttl, addrs.ipv4@.subrange(0, i as int)),
            decreases n - i,
        {
            if !add_answer_a(&mut m, norm_name, ttl, addrs.ipv4[i]) {
                return None;
            }
            assert(msg_answers(m) =~= a_answers(
                norm_name@,
                ttl,
                addrs.ipv4@.subrange(0, i + 1 as int),
            ));
            i += 1;
        }
        assert(addrs.ipv4@.subrange(0, n as int) =~= addrs.ipv4@);
    }
    if do_aaaa {
        let ghost pre = msg_answers(m);
        let n = addrs.ipv6.len();
        let mut i: usize = 0;
        while i < n
            invariant
                0 <= i <= n,
                n == addrs.ipv6@.len(),
                msg_clean(m),
                msg_header(m) == hdr,
                msg_question(m) == qsec,
                msg_answers(m) =~= pre + aaaa_answers(
                    norm_name@,
                    ttl,
                    addrs.ipv6@.subrange(0, i as int),
                ),
            decreases n - i,
        {
            if !add_answer_aaaa(&mut m, norm_name, ttl, addrs.ipv6[i]) {
                return None;
            }
            assert(msg_answers(m) =~= pre + aaaa_answers(
                norm_name@,
                ttl,
                addrs.ipv6@.subrange(0, i + 1 as int),
            ));
            i += 1;
        }
        assert(addrs.ipv6@.subrange(0, n as int) =~= addrs.ipv6@);
    }
    assert(msg_answers(m) =~= local_answers(
        norm_name@,
        ttl,
        addrs.ipv4@,
        addrs.ipv6@,
        query.qtype,
    ));
    encode_message(&m)
}

/// What the responder does with one received packet.
pub enum DnsAction {
    /// Answer from the local zone with these bytes.
    Reply(Vec<u8>),
    /// Ask the configured upstreams.
    Forward,
    /// Say nothing: the packet is not a usable query, or the local answer
    /// could not be built.
    Drop,
}

/// Decides one packet: malformed or empty queries are dropped; a first
/// query whose normalized name is configured and whose type is `A`, `AAAA`
/// or `ANY` is answered from the local zone; everything else is forwarded.
/// Local records always win over forwarding.
pub fn handle_dns_packet(packet: &[u8], records: &DomainMap<DomainAddrs>, ttl: u32) -> (r:
    DnsAction)
    ensures
        parsed_query(packet@) is None ==> r is Drop,
        parsed_query(packet@) matches Some(q) ==> {
            let qn = normalize_spec(q.qname);
            &&& (records.spec_contains(qn) && is_addr_qtype(q.qtype)) <==> !(r is Forward)
            &&& (match r {
                DnsAction::Reply(b) => records.spec_get(qn) matches Some(addrs) && name_ok(q.qname)
                    && Some(b@) == dns_wire(
                    reply_header(q),
                    seq![DnsQuestionV { name: q.qname, qtype: qtype_wire(q.qtype) }],
                    local_answers(qn, ttl, addrs.ipv4@, addrs.ipv6@, q.qtype),
                ),
                DnsAction::Forward => true,
                DnsAction::Drop => records.spec_get(qn) matches Some(addrs) && !(name_ok(q.qname)
                    && name_ok(qn) && dns_wire(
                    reply_header(q),
                    seq![DnsQuestionV { name: q.qname, qtype: qtype_wire(q.qtype) }],
                    local_answers(qn, ttl, addrs.ipv4@, addrs.ipv6@, q.qtype),
                ) is Some),
            })
        },
{
    let query = match decode_query(packet) {
        Some(q) => q,
        None => {
            return DnsAction::Drop;
        },
    };
    let qname = normalize_domain(query.qname.as_str());
    let is_addr = match query.qtype {
        QType::A => true,
        QType::Aaaa => true,
        QType::Any => true,
        QType::Other(_) => false,
    };
    if is_addr {
        if let Some(addrs) = records.get(qname.as_str()) {
            return match local_response(&query, qname.as_str(), ttl, addrs) {
                Some(b) => DnsAction::Reply(b),
                None => DnsAction::Drop,
            };
        }
    }
    DnsAction::Forward
}

/// What happened while waiting on the ephemeral socket of the current
/// upstream.
pub enum ForwardEvent {
    /// A packet arrived from this source.
    Packet { from: SockAddr },
    /// The per-upstream deadline passed.
    TimedOut,
    /// Receiving failed.
    RecvFailed,
    /// Sending the query to the upstream failed.
    SendFailed,
}

/// What the forwarder does next.
#[derive(Clone, Copy, Debug, PartialEq, Eq, Structural)]
pub enum ForwardStep {
    /// The packet came from the upstream that was asked: relay it.
    Accept,
    /// The packet came from somewhere else: ignore it, keep waiting.
    Discard,
    /// Give this upstream up and ask the next one.
    NextUpstream,
}

/// The forwarder's walk over the configured upstreams, in configuration
/// order. A reply is accepted only when its source equals the upstream
/// currently asked, exactly: packets from any other source are discarded
/// without ending the wait.
pub struct ForwardMachine {
    pub upstreams: Vec<SockAddr>,
    pub idx: usize,
}

impl ForwardMachine {
    /// All upstreams tried and none answered.
    pub open spec fn exhausted(self) -> bool {
        self.idx >= self.upstreams@.len()
    }

    /// The upstream currently asked.
    pub open spec fn spec_current(self) -> SockAddr
        recommends
            !self.exhausted(),
    {
        self.upstreams@[self.idx as int]
    }

    /// Starts the walk at the first configured upstream.
    pub fn new(upstreams: Vec<SockAddr>) -> (r: ForwardMachine)
        ensures
            r.upstreams@ == upstreams@,
            r.idx == 0,
    {
        ForwardMachine { upstreams, idx: 0 }
    }

    /// Whether any upstream is left to ask.
    pub fn done(&self) -> (r: bool)
        ensures
            r == self.exhausted(),
    {
        self.idx >= self.upstreams.len()
    }

    /// The upstream currently asked.
    pub fn current(&self) -> (r: SockAddr)
        requires
            !self.exhausted(),
        ensures
            r == self.spec_current(),
    {
        self.upstreams[self.idx]
    }

    /// Decides one event: a packet is accepted iff its source equals the
    /// upstream currently asked (both address and port); any other packet
    /// is discarded and the wait goes on; a timeout, receive failure or
    /// send failure moves to the next upstream in configuration order.
    pub fn on_event(&mut self, ev: ForwardEvent) -> (s: ForwardStep)
        requires
            !old(self).exhausted(),
        ensures
            final(self).upstreams@ == old(self).upstreams@,
            s == ForwardStep::Accept <==> (ev matches ForwardEvent::Packet { from } && from == old(
                self,
            ).spec_current()),
            s == ForwardStep::Discard <==> (ev matches ForwardEvent::Packet { from } && from
                != old(self).spec_current()),
            s is NextUpstream <==> !(ev is Packet),
            s is NextUpstream ==> final(self).idx == old(self).idx + 1,
            !(s is NextUpstream) ==> final(self).idx == old(self).idx,
    {
        match ev {
            ForwardEvent::Packet { from } => {
                if is_valid_source(from, self.upstreams[self.idx]) {
                    ForwardStep::Accept
                } else {
                    ForwardStep::Discard
                }
            },
            _ => {
                let n = self.upstreams.len();
                assert(self.idx < n);
                self.idx = self.idx + 1;
                ForwardStep::NextUpstream
            },
        }
    }
}

} // verus!
