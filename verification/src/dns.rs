//! The DNS front-end.
//!
//! The daemon answers DNS on a loopback address, so that the policy applies
//! to every resolver on the machine. Denied names get NXDOMAIN, the daemon's
//! own records are answered directly, and everything else is forwarded
//! verbatim to the real resolver over the transport that the client used; a
//! resolver that does not answer yields SERVFAIL. Only the question section
//! is interpreted.
use crate::addr::{IpAddr, SocketAddr};
use crate::policy;
use crate::policy::{Caller, DnsFrontendConfig, PolicyEngine, PolicyVerdict};
use crate::relay::Relays;
use crate::text;
use crate::text::{chars_of, from_utf8_lossy, string_of, to_lower};
use crate::upstream;
use crate::upstream::upstream_resolve;
use crate::wire;
use crate::wire::{be16, push_be16, push_be32};
use std::sync::Arc;
use vstd::prelude::*;
use vstd::slice::{slice_subrange, slice_to_vec};

verus! {

/// The type of an IPv4 address record.
pub const TYPE_A: u16 = 1;

/// The type of an IPv6 address record.
pub const TYPE_AAAA: u16 = 28;

/// The Internet class.
pub const CLASS_IN: u16 = 1;

pub const RCODE_NOERROR: u16 = 0;

pub const RCODE_FORMERR: u16 = 1;

pub const RCODE_SERVFAIL: u16 = 2;

pub const RCODE_NXDOMAIN: u16 = 3;

/// The flag of a response.
pub const FLAG_QR: u16 = 0x8000;

/// The bits of the operation code.
pub const FLAG_OPCODE: u16 = 0x7800;

/// Recursion is desired.
pub const FLAG_RD: u16 = 0x0100;

/// Recursion is available.
pub const FLAG_RA: u16 = 0x0080;

/// The size of a message header.
pub const HEADER_LEN: usize = 12;

/// The largest message that is accepted.
pub const MAX_MESSAGE: usize = 65535;

/// The TTL of the daemon's own answers, in seconds.
pub const ANSWER_TTL: u32 = 60;

/// The one question of a query, and where it ends in the message.
#[derive(Debug, Clone, PartialEq, Eq)]
pub struct Question {
    /// Lower-case, without the trailing dot; empty for the root.
    pub name: String,
    pub qtype: u16,
    pub qclass: u16,
    /// The position after the question.
    pub end: usize,
}

/// A query: its header, its question and the message as it came.
#[derive(Debug, Clone, PartialEq, Eq)]
pub struct Query {
    pub id: u16,
    pub flags: u16,
    pub question: Question,
    pub raw: Vec<u8>,
}

/// Why a message is not a query that can be judged.
#[derive(Debug, Clone, Copy, PartialEq, Eq, Structural)]
pub enum ParseError {
    /// It ends before the header or the question does.
    TooShort,
    /// It is a response.
    NotAQuery,
    /// It does not have exactly one question.
    QuestionCount(u16),
    /// The name runs over the end of the message, is too long, or has a
    /// compression pointer in it.
    BadName,
}

/// A label as rules see it: lower-case text.
pub open spec fn label_text(label: Seq<u8>) -> Seq<char> {
    text::lower(text::lossy_text(label))
}

/// The labels of the name at `at`, up to the empty one, and the position
/// after that; `None` when there is no such name within the message and the
/// limit on its length.
pub open spec fn labels_at(raw: Seq<u8>, at: int) -> Option<(Seq<Seq<char>>, int)>
    decreases raw.len() - at,
{
    if at < 0 || at >= raw.len() {
        None
    } else {
        let next = at + 1 + raw[at];
        if raw[at] == 0 {
            Some((seq![], at + 1))
        } else if raw[at] > 63 || next > raw.len() || next - HEADER_LEN > 255 {
            None
        } else {
            match labels_at(raw, next) {
                Some((labels, end)) => Some(
                    (seq![label_text(raw.subrange(at + 1, next))] + labels, end),
                ),
                None => None,
            }
        }
    }
}

/// A question: its name, type and class, and the position after it.
pub struct QuestionView {
    pub name: Seq<char>,
    pub qtype: u16,
    pub qclass: u16,
    pub end: int,
}

/// The question with the given name, followed by its type and class; the name
/// is given by its labels and the position after it.
pub open spec fn question_named(raw: Seq<u8>, name: Option<(Seq<Seq<char>>, int)>) -> Result<
    QuestionView,
    ParseError,
> {
    match name {
        None => Err(ParseError::BadName),
        Some((labels, at)) => {
            if at + 4 > raw.len() {
                Err(ParseError::TooShort)
            } else {
                Ok(
                    QuestionView {
                        name: text::join(labels, '.'),
                        qtype: wire::be16_at(raw, at),
                        qclass: wire::be16_at(raw, at + 2),
                        end: at + 4,
                    },
                )
            }
        },
    }
}

/// What the question of a message is, or why it has none that can be judged.
pub open spec fn parsed_question(raw: Seq<u8>) -> Result<QuestionView, ParseError> {
    if raw.len() < HEADER_LEN {
        Err(ParseError::TooShort)
    } else if wire::be16_at(raw, 2) & FLAG_QR != 0 {
        Err(ParseError::NotAQuery)
    } else if wire::be16_at(raw, 4) != 1 {
        Err(ParseError::QuestionCount(wire::be16_at(raw, 4)))
    } else {
        question_named(raw, labels_at(raw, HEADER_LEN as int))
    }
}

/// The flags of a response to a query with these flags: QR set, opcode and RD
/// copied, RA set.
pub open spec fn response_flags(flags: u16, rcode: u16) -> u16 {
    FLAG_QR | (flags & FLAG_OPCODE) | (flags & FLAG_RD) | FLAG_RA | rcode
}

/// A response: the header, the question as it came, and the answers.
pub open spec fn response_bytes(
    id: u16,
    flags: u16,
    question: Seq<u8>,
    ancount: u16,
    answers: Seq<u8>,
) -> Seq<u8> {
    wire::be16_bytes(id) + wire::be16_bytes(flags) + wire::be16_bytes(1) + wire::be16_bytes(ancount)
        + wire::be16_bytes(0) + wire::be16_bytes(0) + question + answers
}

/// Whether an address answers a question of this type.
pub open spec fn answers_type(addr: IpAddr, qtype: u16) -> bool {
    match addr {
        IpAddr::V4(_) => qtype == TYPE_A,
        IpAddr::V6(_) => qtype == TYPE_AAAA,
    }
}

/// The record of an address: a pointer to the question's name, type, class,
/// TTL, length and octets.
pub open spec fn record_bytes(addr: IpAddr, qtype: u16) -> Seq<u8> {
    seq![0xC0u8, 12u8] + wire::be16_bytes(qtype) + wire::be16_bytes(CLASS_IN) + wire::be32_bytes(
        ANSWER_TTL,
    ) + wire::be16_bytes(addr.octets().len() as u16) + addr.octets()
}

/// The addresses that answer a question of this type.
pub open spec fn of_type(addrs: Seq<IpAddr>, qtype: u16) -> Seq<IpAddr>
    decreases addrs.len(),
{
    if addrs.len() == 0 {
        seq![]
    } else if answers_type(addrs.last(), qtype) {
        of_type(addrs.drop_last(), qtype).push(addrs.last())
    } else {
        of_type(addrs.drop_last(), qtype)
    }
}

/// The records of addresses, one after the other.
pub open spec fn records(addrs: Seq<IpAddr>, qtype: u16) -> Seq<u8>
    decreases addrs.len(),
{
    if addrs.len() == 0 {
        seq![]
    } else {
        records(addrs.drop_last(), qtype) + record_bytes(addrs.last(), qtype)
    }
}

impl Query {
    /// Whether the question ends within the message and after the header.
    pub open spec fn wf(&self) -> bool {
        HEADER_LEN <= self.question.end <= self.raw@.len()
    }

    /// The question as it came.
    pub open spec fn question_section(&self) -> Seq<u8> {
        self.raw@.subrange(HEADER_LEN as int, self.question.end as int)
    }

    /// A response to this query.
    pub open spec fn response_to(&self, rcode: u16, ancount: u16, answers: Seq<u8>) -> Seq<u8> {
        response_bytes(
            self.id,
            response_flags(self.flags, rcode),
            self.question_section(),
            ancount,
            answers,
        )
    }

    /// The response with the addresses that answer the question.
    pub open spec fn answer_to(&self, addrs: Seq<IpAddr>) -> Seq<u8> {
        let matching = of_type(addrs, self.question.qtype);
        self.response_to(
            RCODE_NOERROR,
            matching.len() as u16,
            records(matching, self.question.qtype),
        )
    }

    /// Parses a query with exactly one question; anything else is refused,
    /// since a message that cannot be judged must not be forwarded unjudged.
    pub fn parse(raw: &[u8]) -> (r: Result<Query, ParseError>)
        ensures
            match (r, parsed_question(raw@)) {
                (Ok(query), Ok(question)) => {
                    &&& query.id == wire::be16_at(raw@, 0)
                    &&& query.flags == wire::be16_at(raw@, 2)
                    &&& query.question.name@ == question.name
                    &&& query.question.qtype == question.qtype
                    &&& query.question.qclass == question.qclass
                    &&& query.question.end == question.end
                    &&& query.raw@ == raw@
                    &&& query.wf()
                },
                (Err(e), Err(why)) => e == why,
                _ => false,
            },
    {
        let (id, flags, qdcount): (u16, u16, u16) = match (be16(raw, 0), be16(raw, 2), be16(raw, 4)) {
            (Some(id), Some(flags), Some(qdcount)) if raw.len() >= HEADER_LEN => (
                id,
                flags,
                qdcount,
            ),
            _ => {
                return Err(ParseError::TooShort);
            },
        };
        if flags & FLAG_QR != 0 {
            return Err(ParseError::NotAQuery);
        }
        if qdcount != 1 {
            return Err(ParseError::QuestionCount(qdcount));
        }
        let mut name = String::new();
        let mut first = true;
        let mut at: usize = HEADER_LEN;
        let ghost mut labels: Seq<Seq<char>> = seq![];
        loop
            invariant
                HEADER_LEN <= at <= raw@.len(),
                name@ == text::join(labels, '.'),
                first == (labels.len() == 0),
                labels_at(raw@, HEADER_LEN as int) == match labels_at(raw@, at as int) {
                    Some((rest, end)) => Some((labels + rest, end)),
                    None => None,
                },
                parsed_question(raw@) == question_named(raw@, labels_at(raw@, HEADER_LEN as int)),
            ensures
                at < raw@.len(),
                raw@[at as int] == 0,
            decreases raw@.len() - at,
        {
            if at >= raw.len() {
                return Err(ParseError::BadName);
            }
            let len: usize = raw[at] as usize;
            if len == 0 {
                break;
            }
            if len > 63 || len > raw.len() - at - 1 || at + 1 + len - HEADER_LEN > 255 {
                return Err(ParseError::BadName);
            }
            let label = slice_subrange(raw, at + 1, at + 1 + len);
            let lower = to_lower(&chars_of(from_utf8_lossy(label).as_str()));
            if !first {
                name.push('.');
            }
            name.append(string_of(&lower).as_str());
            first = false;
            proof {
                let next = at + 1 + len;
                let before = labels;
                labels = labels.push(label_text(label@));
                assert(labels.drop_last() =~= before);
                assert(name@ =~= text::join(labels, '.'));
                match labels_at(raw@, next) {
                    Some((rest, end)) => {
                        assert(before + (seq![label_text(label@)] + rest) =~= labels + rest);
                    },
                    None => {},
                }
            }
            at = at + 1 + len;
        }
        assert(labels + seq![] =~= labels);
        at = at + 1;
        match (be16(raw, at), if at <= usize::MAX - 2 {
            be16(raw, at + 2)
        } else {
            None
        }) {
            (Some(qtype), Some(qclass)) => Ok(
                Query {
                    id,
                    flags,
                    question: Question { name, qtype, qclass, end: at + 4 },
                    raw: slice_to_vec(raw),
                },
            ),
            _ => Err(ParseError::TooShort),
        }
    }

    /// A response to this query with the question echoed back and no
    /// authority or additional records.
    fn response(&self, rcode: u16, answers: &[u8], ancount: u16) -> (r: Vec<u8>)
        requires
            self.wf(),
        ensures
            r@ == self.response_to(rcode, ancount, answers@),
    {
        let flags: u16 = FLAG_QR | (self.flags & FLAG_OPCODE) | (self.flags & FLAG_RD) | FLAG_RA
            | rcode;
        let mut out: Vec<u8> = Vec::new();
        push_be16(&mut out, self.id);
        push_be16(&mut out, flags);
        push_be16(&mut out, 1);
        push_be16(&mut out, ancount);
        push_be16(&mut out, 0);
        push_be16(&mut out, 0);
        out.extend_from_slice(slice_subrange(&self.raw, HEADER_LEN, self.question.end));
        out.extend_from_slice(answers);
        assert(out@ =~= self.response_to(rcode, ancount, answers@));
        out
    }

    /// The response that the name does not exist.
    pub fn nxdomain(&self) -> (r: Vec<u8>)
        requires
            self.wf(),
        ensures
            r@ == self.response_to(RCODE_NXDOMAIN, 0, seq![]),
    {
        let none: Vec<u8> = Vec::new();
        assert(none@ =~= seq![]);
        self.response(RCODE_NXDOMAIN, &none, 0)
    }

    /// The response that the server failed.
    pub fn servfail(&self) -> (r: Vec<u8>)
        requires
            self.wf(),
        ensures
            r@ == self.response_to(RCODE_SERVFAIL, 0, seq![]),
    {
        let none: Vec<u8> = Vec::new();
        assert(none@ =~= seq![]);
        self.response(RCODE_SERVFAIL, &none, 0)
    }

    /// The response with the addresses that answer the question; without
    /// answers when there are none.
    pub fn answer(&self, addrs: &[IpAddr]) -> (r: Vec<u8>)
        requires
            self.wf(),
            of_type(addrs@, self.question.qtype).len() <= u16::MAX,
        ensures
            r@ == self.answer_to(addrs@),
    {
        let qtype: u16 = self.question.qtype;
        let mut answers: Vec<u8> = Vec::new();
        let mut count: u16 = 0;
        assert(of_type(addrs@.take(0), qtype) =~= seq![]);
        for i in 0..addrs.len()
            invariant
                qtype == self.question.qtype,
                of_type(addrs@, qtype).len() <= u16::MAX,
                count == of_type(addrs@.take(i as int), qtype).len(),
                answers@ =~= records(of_type(addrs@.take(i as int), qtype), qtype),
        {
            let addr = &addrs[i];
            let ghost before = of_type(addrs@.take(i as int), qtype);
            proof {
                assert(addrs@.take(i + 1).drop_last() =~= addrs@.take(i as int));
                lemma_of_type_grows(addrs@, qtype, i + 1);
            }
            let wanted = if addr.is_ipv4() {
                qtype == TYPE_A
            } else {
                qtype == TYPE_AAAA
            };
            if wanted {
                push_record(&mut answers, addr, qtype);
                count = count + 1;
                assert(before.push(*addr).drop_last() =~= before);
            }
        }
        assert(addrs@.take(addrs@.len() as int) =~= addrs@);
        self.response(RCODE_NOERROR, &answers, count)
    }
}

/// Appends the record of an address.
fn push_record(out: &mut Vec<u8>, addr: &IpAddr, qtype: u16)
    ensures
        final(out)@ == old(out)@ + record_bytes(*addr, qtype),
{
    let mut octets = addr.bytes();
    assert(octets@.len() <= 16);
    out.push(0xC0);
    out.push(12);
    push_be16(out, qtype);
    push_be16(out, CLASS_IN);
    push_be32(out, ANSWER_TTL);
    push_be16(out, octets.len() as u16);
    out.append(&mut octets);
    assert(out@ =~= old(out)@ + record_bytes(*addr, qtype));
}

/// Fewer addresses have no more answers among them.
proof fn lemma_of_type_grows(addrs: Seq<IpAddr>, qtype: u16, n: int)
    requires
        0 <= n <= addrs.len(),
    ensures
        of_type(addrs.take(n), qtype).len() <= of_type(addrs, qtype).len(),
    decreases addrs.len(),
{
    if n < addrs.len() {
        lemma_of_type_grows(addrs.drop_last(), qtype, n);
        assert(addrs.drop_last().take(n) =~= addrs.take(n));
    } else {
        assert(addrs.take(n) =~= addrs);
    }
}

/// The id to answer a message under: its own, if it is long enough to have
/// one.
pub open spec fn message_id(raw: Seq<u8>) -> Seq<u8> {
    if raw.len() >= 2 {
        raw.take(2)
    } else {
        seq![0u8, 0u8]
    }
}

/// The response to a message that cannot be parsed: a header and nothing
/// else.
pub open spec fn formerr_bytes(raw: Seq<u8>) -> Seq<u8> {
    message_id(raw) + wire::be16_bytes(FLAG_QR | RCODE_FORMERR) + seq![
        0u8,
        0u8,
        0u8,
        0u8,
        0u8,
        0u8,
        0u8,
        0u8,
    ]
}

/// The response to a message that cannot be parsed: the id is echoed when
/// there is one, so that the client can match the failure to its query.
pub fn formerr(raw: &[u8]) -> (r: Vec<u8>)
    ensures
        r@ == formerr_bytes(raw@),
{
    let mut out: Vec<u8> = Vec::new();
    if raw.len() >= 2 {
        out.push(raw[0]);
        out.push(raw[1]);
    } else {
        out.push(0);
        out.push(0);
    }
    assert(out@ =~= message_id(raw@));
    push_be16(&mut out, FLAG_QR | RCODE_FORMERR);
    push_be32(&mut out, 0);
    push_be32(&mut out, 0);
    assert(out@ =~= formerr_bytes(raw@));
    out
}

// ---------------------------------------------------------------------------
// Transports
// ---------------------------------------------------------------------------

/// A message over TCP: its length and the message.
pub open spec fn frame_bytes(message: Seq<u8>) -> Seq<u8> {
    wire::be16_bytes(message.len() as u16) + message
}

/// A message as it is sent over TCP.
pub fn framed(message: &[u8]) -> (r: Vec<u8>)
    ensures
        r@ == frame_bytes(message@),
{
    let mut out: Vec<u8> = Vec::new();
    push_be16(&mut out, message.len() as u16);
    out.extend_from_slice(message);
    assert(out@ =~= frame_bytes(message@));
    out
}

/// The length of the message that follows these two octets over TCP.
pub fn frame_len(prefix: [u8; 2]) -> (r: usize)
    ensures
        r == wire::be16_at(prefix@, 0),
{
    prefix[0] as usize * 256 + prefix[1] as usize
}

/// Whether a datagram is an answer to this query, and not a stray one: it has
/// the same id.
pub open spec fn same_id(query: Seq<u8>, datagram: Seq<u8>) -> bool {
    datagram.len() >= 2 && datagram.take(2) == query.take(2)
}

/// Whether a datagram is an answer to this query, and not a stray one.
pub fn answers_query(query: &[u8], datagram: &[u8]) -> (r: bool)
    requires
        query@.len() >= 2,
    ensures
        r == same_id(query@, datagram@),
{
    if datagram.len() < 2 {
        return false;
    }
    let r = datagram[0] == query[0] && datagram[1] == query[1];
    proof {
        if r {
            assert(datagram@.take(2) =~= query@.take(2));
        } else {
            assert(datagram@.take(2)[0] == datagram@[0] && datagram@.take(2)[1] == datagram@[1]);
            assert(query@.take(2)[0] == query@[0] && query@.take(2)[1] == query@[1]);
        }
    }
    r
}

/// The local address to send from to an upstream: any, of the same family.
pub fn local_for(upstream: &SocketAddr) -> (r: SocketAddr)
    ensures
        r.ip().unspecified(),
        r.port() == 0,
        r is V6 == upstream is V6,
        r is V6 ==> r->flowinfo == 0 && r->scope_id == 0,
{
    let ip = if upstream.ip().is_ipv6() {
        IpAddr::V6([0u8, 0u8, 0u8, 0u8, 0u8, 0u8, 0u8, 0u8, 0u8, 0u8, 0u8, 0u8, 0u8, 0u8, 0u8, 0u8])
    } else {
        IpAddr::V4([0u8, 0u8, 0u8, 0u8])
    };
    SocketAddr::new(ip, 0)
}

// ---------------------------------------------------------------------------
// The front-end
// ---------------------------------------------------------------------------

/// What becomes of a query: a response of the front-end's own, or the query
/// is sent, as it came, to the real resolver.
#[derive(Debug, PartialEq, Eq)]
pub enum Step {
    Reply(Vec<u8>),
    Forward,
}

/// What becomes of a query, with the bytes of a response as a sequence.
pub enum StepView {
    Reply(Seq<u8>),
    Forward,
}

impl View for Step {
    type V = StepView;

    open spec fn view(&self) -> StepView {
        match self {
            Step::Reply(bytes) => StepView::Reply(bytes@),
            Step::Forward => StepView::Forward,
        }
    }
}

/// What becomes of a query that the policy has decided on. A denial is
/// answered as NXDOMAIN, the daemon's own records are answered directly, and
/// everything else goes to the real resolver.
pub open spec fn judged(query: Query, verdict: policy::Verdict) -> StepView {
    match verdict {
        policy::Verdict::Denied(_) => StepView::Reply(
            query.response_to(RCODE_NXDOMAIN, 0, seq![]),
        ),
        policy::Verdict::PassThrough => StepView::Forward,
        policy::Verdict::Allowed => {
            let addrs = upstream::own_records(query.question.name@);
            if addrs.len() == 0 {
                StepView::Forward
            } else {
                StepView::Reply(query.answer_to(addrs))
            }
        },
    }
}

/// The response to a query that was sent to the real resolver: what came
/// back, or SERVFAIL when nothing did.
pub open spec fn relayed(query: Query, reply: Option<Seq<u8>>) -> Seq<u8> {
    match reply {
        Some(bytes) => bytes,
        None => query.response_to(RCODE_SERVFAIL, 0, seq![]),
    }
}

/// The front-end that serves DNS.
pub struct Frontend {
    listen: SocketAddr,
    upstream: SocketAddr,
    timeout_ms: u64,
    engine: Arc<PolicyEngine>,
    relays: Relays,
}

impl Frontend {
    /// The policy that judges queries.
    pub closed spec fn engine(&self) -> PolicyEngine {
        *self.engine
    }

    /// The users whose queries are passed through unjudged.
    pub closed spec fn relays(&self) -> Relays {
        self.relays
    }

    /// The address to listen on.
    pub closed spec fn listens_on(&self) -> SocketAddr {
        self.listen
    }

    /// The real resolver.
    pub closed spec fn forwards_to(&self) -> SocketAddr {
        self.upstream
    }

    /// How long the real resolver may take, in milliseconds.
    pub closed spec fn patience(&self) -> u64 {
        self.timeout_ms
    }

    /// A front-end without relays.
    pub fn new(config: &DnsFrontendConfig, engine: Arc<PolicyEngine>) -> (r: Frontend)
        ensures
            r.engine() == *engine,
            r.relays()@ == Set::<u32>::empty(),
            r.listens_on() == config.listen,
            r.forwards_to() == config.upstream,
            r.patience() == config.upstream_timeout_ms,
    {
        Frontend {
            listen: config.listen,
            upstream: config.upstream,
            timeout_ms: config.upstream_timeout_ms,
            engine,
            relays: Relays::default(),
        }
    }

    /// The same front-end with these relays.
    pub fn with_relays(self, relays: Relays) -> (r: Frontend)
        ensures
            r.engine() == self.engine(),
            r.relays() == relays,
            r.listens_on() == self.listens_on(),
            r.forwards_to() == self.forwards_to(),
            r.patience() == self.patience(),
    {
        Frontend {
            listen: self.listen,
            upstream: self.upstream,
            timeout_ms: self.timeout_ms,
            engine: self.engine,
            relays,
        }
    }

    /// The address to listen on.
    pub fn listen_addr(&self) -> (r: SocketAddr)
        ensures
            r == self.listens_on(),
    {
        self.listen
    }

    /// The real resolver.
    pub fn upstream_addr(&self) -> (r: SocketAddr)
        ensures
            r == self.forwards_to(),
    {
        self.upstream
    }

    /// How long the real resolver may take, in milliseconds.
    pub fn upstream_timeout_ms(&self) -> (r: u64)
        ensures
            r == self.patience(),
    {
        self.timeout_ms
    }

    /// Whether this may become of a query: a relay's is forwarded unjudged,
    /// and any other is judged under its name, the root's under `.`.
    pub open spec fn may_step(&self, query: Query, caller: Caller, step: StepView) -> bool {
        if self.relays().relays(caller) {
            step == StepView::Forward
        } else {
            exists|verdict: policy::Verdict| #[trigger]
                self.engine().may_decide(query.question.name@, caller, verdict) && step == judged(
                    query,
                    verdict,
                )
        }
    }

    /// Whether judging a query never panics.
    pub open spec fn returns_for(&self, query: Query, caller: Caller) -> bool {
        self.relays().relays(caller) || self.engine().returns_for(query.question.name@, caller)
    }

    /// The query in a message, or the response to a message that is none.
    pub fn receive(raw: &[u8]) -> (r: Result<Query, Vec<u8>>)
        ensures
            match r {
                Ok(query) => {
                    &&& parsed_question(raw@) matches Ok(question)
                    &&& query.wf()
                    &&& query.id == wire::be16_at(raw@, 0)
                    &&& query.flags == wire::be16_at(raw@, 2)
                    &&& query.raw@ == raw@
                    &&& query.question.name@ == question.name
                    &&& query.question.qtype == question.qtype
                    &&& query.question.qclass == question.qclass
                    &&& query.question.end == question.end
                },
                Err(reply) => parsed_question(raw@) is Err && reply@ == formerr_bytes(raw@),
            },
    {
        match Query::parse(raw) {
            Ok(query) => Ok(query),
            Err(_) => Err(formerr(raw)),
        }
    }

    /// What becomes of a query that the policy has decided on.
    pub fn judge(query: &Query, verdict: &PolicyVerdict) -> (r: Step)
        requires
            query.wf(),
        ensures
            r@ == judged(*query, verdict@),
    {
        match verdict {
            PolicyVerdict::Denied(_) => Step::Reply(query.nxdomain()),
            PolicyVerdict::PassThrough => Step::Forward,
            PolicyVerdict::Allowed => {
                let addrs = upstream_resolve(query.question.name.as_str());
                if addrs.len() == 0 {
                    Step::Forward
                } else {
                    proof {
                        lemma_of_type_len(addrs@, query.question.qtype);
                    }
                    Step::Reply(query.answer(&addrs))
                }
            },
        }
    }

    /// Decides what a query gets: a response of the front-end's own, or the
    /// real resolver's.
    pub fn respond(&self, query: &Query, caller: &Caller) -> (r: Step)
        requires
            query.wf(),
            self.returns_for(*query, *caller),
        ensures
            self.may_step(*query, *caller, r@),
    {
        if self.relays.contains(caller) {
            return Step::Forward;
        }
        let verdict = self.engine.evaluate_for(query.question.name.as_str(), caller);
        Self::judge(query, &verdict)
    }

    /// Decides what a query gets, if every rule of the policy keeps to the
    /// documented part of the expression language.
    pub fn respond_checked(&self, query: &Query, caller: &Caller) -> (r: Option<Step>)
        requires
            query.wf(),
        ensures
            r is Some <==> self.engine().all_documented(),
            r matches Some(step) ==> self.may_step(*query, *caller, step@),
    {
        if self.engine.is_documented() {
            Some(self.respond(query, caller))
        } else {
            None
        }
    }

    /// The response to a query that was sent to the real resolver, given what
    /// came back.
    pub fn forwarded(query: &Query, reply: Option<Vec<u8>>) -> (r: Vec<u8>)
        requires
            query.wf(),
        ensures
            r@ == relayed(
                *query,
                match reply {
                    Some(bytes) => Some(bytes@),
                    None => None,
                },
            ),
    {
        match reply {
            Some(bytes) => bytes,
            None => query.servfail(),
        }
    }
}

proof fn lemma_of_type_len(addrs: Seq<IpAddr>, qtype: u16)
    ensures
        of_type(addrs, qtype).len() <= addrs.len(),
    decreases addrs.len(),
{
    if addrs.len() > 0 {
        lemma_of_type_len(addrs.drop_last(), qtype);
    }
}

// ---------------------------------------------------------------------------
// Laws
// ---------------------------------------------------------------------------

/// The labels of a name on the wire: each with its length before it, and an
/// empty one at the end.
pub open spec fn name_bytes(labels: Seq<Seq<u8>>) -> Seq<u8>
    decreases labels.len(),
{
    if labels.len() == 0 {
        seq![0u8]
    } else {
        seq![labels[0].len() as u8] + labels[0] + name_bytes(labels.skip(1))
    }
}

/// The labels as rules see them.
pub open spec fn label_texts(labels: Seq<Seq<u8>>) -> Seq<Seq<char>> {
    labels.map_values(|l: Seq<u8>| label_text(l))
}

/// A query with one question, the way a resolver builds it.
pub open spec fn query_bytes(
    id: u16,
    flags: u16,
    labels: Seq<Seq<u8>>,
    qtype: u16,
    qclass: u16,
) -> Seq<u8> {
    wire::be16_bytes(id) + wire::be16_bytes(flags) + seq![
        0u8,
        1u8,
        0u8,
        0u8,
        0u8,
        0u8,
        0u8,
        0u8,
    ] + name_bytes(labels) + wire::be16_bytes(qtype) + wire::be16_bytes(qclass)
}

/// Whether labels make a name: each has from 1 to 63 octets, and all of them
/// with their lengths have at most 255.
pub open spec fn valid_labels(labels: Seq<Seq<u8>>) -> bool {
    &&& forall|i: int| 0 <= i < labels.len() ==> 1 <= (#[trigger] labels[i]).len() <= 63
    &&& name_bytes(labels).len() <= 256
}

proof fn lemma_labels_at(before: Seq<u8>, labels: Seq<Seq<u8>>, after: Seq<u8>)
    requires
        before.len() >= HEADER_LEN,
        forall|i: int| 0 <= i < labels.len() ==> 1 <= (#[trigger] labels[i]).len() <= 63,
        before.len() + name_bytes(labels).len() - HEADER_LEN <= 256,
    ensures
        labels_at(before + name_bytes(labels) + after, before.len() as int) == Some(
            (label_texts(labels), (before.len() + name_bytes(labels).len()) as int),
        ),
    decreases labels.len(),
{
    let raw = before + name_bytes(labels) + after;
    let at = before.len() as int;
    if labels.len() == 0 {
        assert(raw[at] == 0);
        assert(label_texts(labels) =~= seq![]);
    } else {
        let label = labels[0];
        let rest = labels.skip(1);
        let head = seq![label.len() as u8] + label;
        assert(raw[at] == label.len() as u8);
        assert forall|i: int| 0 <= i < rest.len() implies 1 <= (#[trigger] rest[i]).len() <= 63 by {
            assert(1 <= labels[i + 1].len() <= 63);
        }
        assert(name_bytes(rest).len() >= 1) by {
            lemma_name_len(rest);
        }
        assert(raw =~= (before + head) + name_bytes(rest) + after);
        lemma_labels_at(before + head, rest, after);
        let next = at + 1 + label.len();
        assert(raw.subrange(at + 1, next) =~= label);
        assert(seq![label_text(label)] + label_texts(rest) =~= label_texts(labels));
    }
}

proof fn lemma_name_len(labels: Seq<Seq<u8>>)
    ensures
        name_bytes(labels).len() >= 1,
    decreases labels.len(),
{
    if labels.len() > 0 {
        lemma_name_len(labels.skip(1));
    }
}

/// A query that a resolver builds parses to the name, type and class it was
/// built from, and the question ends where the message does.
#[verifier::spinoff_prover]
pub proof fn law_queries_parse(
    id: u16,
    flags: u16,
    labels: Seq<Seq<u8>>,
    qtype: u16,
    qclass: u16,
)
    requires
        flags & FLAG_QR == 0,
        valid_labels(labels),
    ensures
        ({
            let raw = query_bytes(id, flags, labels, qtype, qclass);
            &&& wire::be16_at(raw, 0) == id
            &&& wire::be16_at(raw, 2) == flags
            &&& parsed_question(raw) == Ok::<QuestionView, ParseError>(
                QuestionView {
                    name: text::join(label_texts(labels), '.'),
                    qtype,
                    qclass,
                    end: raw.len() as int,
                },
            )
        }),
{
    let raw = query_bytes(id, flags, labels, qtype, qclass);
    let counts = seq![0u8, 1u8, 0u8, 0u8, 0u8, 0u8, 0u8, 0u8];
    let header = wire::be16_bytes(id) + wire::be16_bytes(flags) + counts;
    let name = name_bytes(labels);
    let tail = wire::be16_bytes(qtype) + wire::be16_bytes(qclass);
    let none = Seq::<u8>::empty();
    assert(raw =~= header + name + tail);
    assert(raw =~= none + wire::be16_bytes(id) + (wire::be16_bytes(flags) + counts + name + tail));
    wire::law_be16_round_trip(id, none, wire::be16_bytes(flags) + counts + name + tail);
    assert(raw =~= wire::be16_bytes(id) + wire::be16_bytes(flags) + (counts + name + tail));
    wire::law_be16_round_trip(flags, wire::be16_bytes(id), counts + name + tail);
    assert(raw[4] == 0 && raw[5] == 1);
    lemma_labels_at(header, labels, tail);
    assert(raw =~= (header + name) + wire::be16_bytes(qtype) + wire::be16_bytes(qclass));
    wire::law_be16_round_trip(qtype, header + name, wire::be16_bytes(qclass));
    let before = header + name + wire::be16_bytes(qtype);
    assert(raw =~= before + wire::be16_bytes(qclass) + none);
    wire::law_be16_round_trip(qclass, before, none);
}

/// What a name within a message is does not depend on what follows it.
proof fn lemma_labels_before_tail(raw: Seq<u8>, tail: Seq<u8>, at: int)
    ensures
        labels_at(raw, at) matches Some((labels, end)) ==> at < end <= raw.len() && labels_at(
            raw + tail,
            at,
        ) == Some((labels, end)),
    decreases raw.len() - at,
{
    if 0 <= at < raw.len() && raw[at] != 0 {
        let next = at + 1 + raw[at];
        if next <= raw.len() {
            lemma_labels_before_tail(raw, tail, next);
            assert((raw + tail).subrange(at + 1, next) =~= raw.subrange(at + 1, next));
        }
    }
}

/// Only the question is interpreted: whatever follows it, EDNS or other
/// records, leaves the id, the flags and the question as they are.
pub proof fn law_only_the_question_is_interpreted(raw: Seq<u8>, tail: Seq<u8>)
    requires
        parsed_question(raw) is Ok,
    ensures
        parsed_question(raw + tail) == parsed_question(raw),
        wire::be16_at(raw + tail, 0) == wire::be16_at(raw, 0),
        wire::be16_at(raw + tail, 2) == wire::be16_at(raw, 2),
{
    lemma_labels_before_tail(raw, tail, HEADER_LEN as int);
}

/// Whether two messages differ at most in the case of ASCII letters between
/// the header and `end`.
pub open spec fn differ_in_case_before(raw: Seq<u8>, other: Seq<u8>, end: int) -> bool {
    &&& other.len() == raw.len()
    &&& forall|i: int|
        0 <= i < raw.len() ==> other[i] == #[trigger] raw[i] || (HEADER_LEN <= i < end
            && text::lower_byte(raw[i]) == text::lower_byte(other[i]))
}

/// A name with its letters in other case has the same labels. The lengths
/// between them are no letters.
proof fn lemma_labels_in_other_case(raw: Seq<u8>, other: Seq<u8>, at: int, end: int)
    requires
        at >= HEADER_LEN,
        labels_at(raw, at) matches Some((_, e)) && e == end,
        differ_in_case_before(raw, other, end),
    ensures
        labels_at(other, at) == labels_at(raw, at),
    decreases raw.len() - at,
{
    assert(text::lower_byte(raw[at]) == text::lower_byte(other[at]));
    if raw[at] != 0 {
        let next = at + 1 + raw[at];
        let (a, b) = (raw.subrange(at + 1, next), other.subrange(at + 1, next));
        assert forall|i: int| 0 <= i < a.len() implies text::lower_byte(#[trigger] a[i])
            == text::lower_byte(b[i]) by {
            assert(a[i] == raw[at + 1 + i] && b[i] == other[at + 1 + i]);
        }
        text::lemma_letter_case_lossy(a, b);
        lemma_labels_in_other_case(raw, other, next, end);
    }
}

/// Letter case does not change the name that is judged: a query whose name has
/// its ASCII letters in other case has the same id, flags and question.
pub proof fn law_letter_case_keeps_the_question(raw: Seq<u8>, other: Seq<u8>)
    requires
        parsed_question(raw) matches Ok(question) && differ_in_case_before(
            raw,
            other,
            question.end - 4,
        ),
    ensures
        parsed_question(other) == parsed_question(raw),
        wire::be16_at(other, 0) == wire::be16_at(raw, 0),
        wire::be16_at(other, 2) == wire::be16_at(raw, 2),
{
    lemma_labels_before_tail(raw, Seq::empty(), HEADER_LEN as int);
    let end = match labels_at(raw, HEADER_LEN as int) {
        Some((_, end)) => end,
        None => 0,
    };
    lemma_labels_in_other_case(raw, other, HEADER_LEN as int, end);
    assert(raw[0] == other[0] && raw[1] == other[1] && raw[2] == other[2] && raw[3] == other[3]);
    assert(raw[4] == other[4] && raw[5] == other[5]);
    assert(raw[end] == other[end] && raw[end + 1] == other[end + 1]);
    assert(raw[end + 2] == other[end + 2] && raw[end + 3] == other[end + 3]);
}

/// The name of a question is lower-case.
pub proof fn law_question_names_are_lower_case(raw: Seq<u8>)
    ensures
        parsed_question(raw) matches Ok(question) ==> text::lower(question.name) == question.name,
{
    lemma_labels_lower(raw, HEADER_LEN as int);
    match labels_at(raw, HEADER_LEN as int) {
        Some((labels, _)) => {
            lemma_join_lower(labels);
        },
        None => {},
    }
}

proof fn lemma_labels_lower(raw: Seq<u8>, at: int)
    ensures
        labels_at(raw, at) matches Some((labels, _)) ==> forall|i: int|
            0 <= i < labels.len() ==> text::lower(#[trigger] labels[i]) == labels[i],
    decreases raw.len() - at,
{
    if 0 <= at < raw.len() && raw[at] != 0 {
        let next = at + 1 + raw[at];
        if next <= raw.len() {
            lemma_labels_lower(raw, next);
            let label = label_text(raw.subrange(at + 1, next));
            assert(text::lower(label) =~= label);
        }
    }
}

proof fn lemma_join_lower(labels: Seq<Seq<char>>)
    requires
        forall|i: int| 0 <= i < labels.len() ==> text::lower(#[trigger] labels[i]) == labels[i],
    ensures
        text::lower(text::join(labels, '.')) == text::join(labels, '.'),
    decreases labels.len(),
{
    let name = text::join(labels, '.');
    if labels.len() > 1 {
        let rest = labels.drop_last();
        assert forall|i: int| 0 <= i < rest.len() implies text::lower(#[trigger] rest[i])
            == rest[i] by {
            assert(text::lower(labels[i]) == labels[i]);
        }
        lemma_join_lower(rest);
        let head = text::join(rest, '.');
        let last = labels.last();
        assert(text::lower(last) == last);
        assert forall|i: int| 0 <= i < name.len() implies text::lower_char(#[trigger] name[i])
            == name[i] by {
            if i < head.len() {
                assert(text::lower(head)[i] == head[i]);
            } else if i > head.len() {
                let k = i - head.len() - 1;
                assert(name[i] == last[k]);
                assert(text::lower(last)[k] == last[k]);
            }
        }
    } else if labels.len() == 1 {
        assert(text::lower(labels[0]) == labels[0]);
    }
    assert(text::lower(name) =~= name);
}

/// A response has the id of the query and its question, says that it is a
/// response with the given code, copies opcode and RD, sets RA, and leaves
/// all other flags clear.
pub proof fn law_responses_echo_the_query(
    query: Query,
    rcode: u16,
    ancount: u16,
    answers: Seq<u8>,
)
    requires
        query.wf(),
        rcode < 16,
    ensures
        ({
            let reply = query.response_to(rcode, ancount, answers);
            let flags = wire::be16_at(reply, 2);
            &&& wire::be16_at(reply, 0) == query.id
            &&& flags & FLAG_QR == FLAG_QR
            &&& flags & FLAG_OPCODE == query.flags & FLAG_OPCODE
            &&& flags & FLAG_RD == query.flags & FLAG_RD
            &&& flags & FLAG_RA == FLAG_RA
            &&& flags & 0x0f == rcode
            &&& flags & 0x0670 == 0
            &&& wire::be16_at(reply, 4) == 1
            &&& wire::be16_at(reply, 6) == ancount
            &&& reply.skip(HEADER_LEN as int) == query.question_section() + answers
        }),
{
    let reply = query.response_to(rcode, ancount, answers);
    let f = query.flags;
    let flags = response_flags(f, rcode);
    let none = Seq::<u8>::empty();
    let b0 = wire::be16_bytes(query.id);
    let b1 = wire::be16_bytes(flags);
    let b2 = wire::be16_bytes(1);
    let b3 = wire::be16_bytes(ancount);
    let zeros = wire::be16_bytes(0) + wire::be16_bytes(0);
    let rest = query.question_section() + answers;
    assert(reply =~= none + b0 + (b1 + b2 + b3 + zeros + rest));
    wire::law_be16_round_trip(query.id, none, b1 + b2 + b3 + zeros + rest);
    assert(reply =~= b0 + b1 + (b2 + b3 + zeros + rest));
    wire::law_be16_round_trip(flags, b0, b2 + b3 + zeros + rest);
    assert(reply =~= (b0 + b1) + b2 + (b3 + zeros + rest));
    wire::law_be16_round_trip(1, b0 + b1, b3 + zeros + rest);
    assert(reply =~= (b0 + b1 + b2) + b3 + (zeros + rest));
    wire::law_be16_round_trip(ancount, b0 + b1 + b2, zeros + rest);
    assert(reply.skip(HEADER_LEN as int) =~= rest);
    assert({
        let g = 0x8000u16 | (f & 0x7800) | (f & 0x0100) | 0x0080u16 | rcode;
        &&& g & 0x8000 == 0x8000
        &&& g & 0x7800 == f & 0x7800
        &&& g & 0x0100 == f & 0x0100
        &&& g & 0x0080 == 0x0080
        &&& g & 0x0f == rcode
        &&& g & 0x0670 == 0
    }) by (bit_vector)
        requires
            rcode < 16,
    ;
}

/// A response of the front-end is never taken for a query.
pub proof fn law_responses_are_no_queries(
    query: Query,
    rcode: u16,
    ancount: u16,
    answers: Seq<u8>,
)
    requires
        query.wf(),
        rcode < 16,
    ensures
        parsed_question(query.response_to(rcode, ancount, answers)) == Err::<
            QuestionView,
            ParseError,
        >(ParseError::NotAQuery),
{
    law_responses_echo_the_query(query, rcode, ancount, answers);
    lemma_not_a_query(query.response_to(rcode, ancount, answers));
}

/// A message that is marked as a response is no query.
proof fn lemma_not_a_query(raw: Seq<u8>)
    requires
        raw.len() >= HEADER_LEN,
        wire::be16_at(raw, 2) & FLAG_QR == FLAG_QR,
    ensures
        parsed_question(raw) == Err::<QuestionView, ParseError>(ParseError::NotAQuery),
{
}

/// The failure of a message that cannot be parsed is a response with the
/// message's id and FORMERR.
pub proof fn law_formerr_echoes_the_id(raw: Seq<u8>)
    ensures
        formerr_bytes(raw).len() == HEADER_LEN,
        raw.len() >= 2 ==> wire::be16_at(formerr_bytes(raw), 0) == wire::be16_at(raw, 0),
        wire::be16_at(formerr_bytes(raw), 2) & 0x0f == RCODE_FORMERR,
        wire::be16_at(formerr_bytes(raw), 2) & FLAG_QR == FLAG_QR,
{
    let reply = formerr_bytes(raw);
    let flags = FLAG_QR | RCODE_FORMERR;
    let zeros = seq![0u8, 0u8, 0u8, 0u8, 0u8, 0u8, 0u8, 0u8];
    wire::law_be16_round_trip(flags, message_id(raw), zeros);
    assert(message_id(raw).len() == 2);
    assert((0x8000u16 | 1u16) & 0x0f == 1 && (0x8000u16 | 1u16) & 0x8000 == 0x8000) by (bit_vector);
    assert(reply[0] == message_id(raw)[0] && reply[1] == message_id(raw)[1]);
}

/// A denied name gets NXDOMAIN from the front-end itself.
pub proof fn law_denials_are_answered(query: Query, reason: Seq<char>)
    ensures
        judged(query, policy::Verdict::Denied(reason)) == StepView::Reply(
            query.response_to(RCODE_NXDOMAIN, 0, seq![]),
        ),
{
}

/// A relay's query is forwarded whatever the policy says.
pub proof fn law_relays_are_not_judged(front: &Frontend, query: Query, caller: Caller, step: StepView)
    requires
        front.relays().relays(caller),
        front.may_step(query, caller, step),
    ensures
        step == StepView::Forward,
{
}

/// A message over TCP arrives with the length that was sent before it.
pub proof fn law_frames_round_trip(message: Seq<u8>)
    requires
        message.len() <= MAX_MESSAGE,
    ensures
        wire::be16_at(frame_bytes(message), 0) == message.len(),
        frame_bytes(message).skip(2) == message,
{
    let none = Seq::<u8>::empty();
    assert(frame_bytes(message) =~= none + wire::be16_bytes(message.len() as u16) + message);
    wire::law_be16_round_trip(message.len() as u16, none, message);
    assert(frame_bytes(message).skip(2) =~= message);
}

/// The numbers of the protocol.
pub proof fn law_protocol_numbers()
    ensures
        TYPE_A == 1 && TYPE_AAAA == 28 && CLASS_IN == 1,
        RCODE_NOERROR == 0 && RCODE_FORMERR == 1 && RCODE_SERVFAIL == 2 && RCODE_NXDOMAIN == 3,
        FLAG_QR == 0x8000 && FLAG_OPCODE == 0x7800 && FLAG_RD == 0x0100 && FLAG_RA == 0x0080,
        HEADER_LEN == 12 && MAX_MESSAGE == 65535 && ANSWER_TTL == 60,
{
}

/// What becomes of a query, whatever its type and class, goes by the verdict
/// on its name. A denied name does not exist, by a response without records.
/// A name that is passed through, or that is allowed without the front-end
/// knowing an address, goes to the real resolver. `example.local`, if it is
/// allowed, is answered here.
pub proof fn law_steps_follow_the_verdict(query: Query, reason: Seq<char>)
    ensures
        judged(query, policy::Verdict::Denied(reason)) == StepView::Reply(
            query.response_to(3, 0, seq![]),
        ),
        judged(query, policy::Verdict::PassThrough) == StepView::Forward,
        query.question.name@ != "example.local"@ ==> judged(query, policy::Verdict::Allowed)
            == StepView::Forward,
        query.question.name@ == "example.local"@ ==> judged(query, policy::Verdict::Allowed)
            == StepView::Reply(query.answer_to(seq![IpAddr::V4([10u8, 0u8, 0u8, 1u8])])),
{
    upstream::law_one_name_is_known(query.question.name@);
}

/// A query that no relay sends is dealt with by the policy's verdict on the
/// name in its question and the caller that sent it: it is forwarded unless
/// the name is denied or is allowed and known, and NXDOMAIN is for denied
/// names only.
pub proof fn law_queries_are_judged(front: &Frontend, query: Query, caller: Caller, step: StepView)
    requires
        !front.relays().relays(caller),
        front.may_step(query, caller, step),
    ensures
        step == StepView::Forward ==> front.engine().may_decide(
            query.question.name@,
            caller,
            policy::Verdict::PassThrough,
        ) || (front.engine().may_decide(query.question.name@, caller, policy::Verdict::Allowed)
            && query.question.name@ != "example.local"@),
        step != StepView::Forward ==> {
            ||| exists|reason: Seq<char>| #[trigger]
                front.engine().may_decide(
                    query.question.name@,
                    caller,
                    policy::Verdict::Denied(reason),
                ) && step == StepView::Reply(query.response_to(3, 0, seq![]))
            ||| front.engine().may_decide(
                query.question.name@,
                caller,
                policy::Verdict::Allowed,
            ) && query.question.name@ == "example.local"@ && step == StepView::Reply(
                query.answer_to(seq![IpAddr::V4([10u8, 0u8, 0u8, 1u8])]),
            )
        },
{
    let name = query.question.name@;
    let verdict = choose|verdict: policy::Verdict| #[trigger]
        front.engine().may_decide(name, caller, verdict) && step == judged(query, verdict);
    match verdict {
        policy::Verdict::Denied(reason) => {
            law_steps_follow_the_verdict(query, reason);
            assert(front.engine().may_decide(name, caller, policy::Verdict::Denied(reason)));
        },
        _ => {
            law_steps_follow_the_verdict(query, Seq::empty());
        },
    }
}

/// Whatever the real resolver sends back, of any length and content, is what
/// the client gets. Only when nothing came back is it told that the server
/// failed.
pub proof fn law_replies_are_relayed_verbatim(query: Query, reply: Seq<u8>)
    ensures
        relayed(query, Some(reply)) == reply,
        relayed(query, None) == query.response_to(2, 0, seq![]),
{
}

/// A response is twelve octets of header, the question as it came and the
/// answers. The header has the id of the query, the flags, one question, the
/// number of answers, and no other records.
pub proof fn law_layout_of_responses(query: Query, rcode: u16, ancount: u16, answers: Seq<u8>)
    requires
        query.wf(),
        rcode < 16,
    ensures
        ({
            let reply = query.response_to(rcode, ancount, answers);
            let flags = (reply[2] * 256 + reply[3]) as u16;
            let question = query.raw@.subrange(12, query.question.end as int);
            &&& reply.len() == 12 + question.len() + answers.len()
            &&& reply[0] * 256 + reply[1] == query.id
            &&& flags & 0x8000 == 0x8000
            &&& flags & 0x7800 == query.flags & 0x7800
            &&& flags & 0x0100 == query.flags & 0x0100
            &&& flags & 0x0080 == 0x0080
            &&& flags & 0x0670 == 0
            &&& flags & 0x000f == rcode
            &&& reply[4] == 0 && reply[5] == 1
            &&& reply[6] * 256 + reply[7] == ancount
            &&& reply[8] == 0 && reply[9] == 0 && reply[10] == 0 && reply[11] == 0
            &&& reply.skip(12) == question + answers
        }),
{
    law_responses_echo_the_query(query, rcode, ancount, answers);
    wire::law_network_order(query.id, 0, query.response_to(rcode, ancount, answers));
    law_protocol_numbers();
    let reply = query.response_to(rcode, ancount, answers);
    assert(wire::be16_at(reply, 4) == 1);
    assert(reply[4] == wire::be16_bytes(1)[0] && reply[5] == wire::be16_bytes(1)[1]);
    assert(reply[8] == 0 && reply[9] == 0 && reply[10] == 0 && reply[11] == 0);
    assert(wire::be16_at(reply, 6) == ancount);
}

/// IPv4 addresses answer questions of type 1 and IPv6 addresses those of type
/// 28, in their order and no others; the number of answers is theirs, and
/// there is no error even without any.
pub proof fn law_answers(query: Query, addrs: Seq<IpAddr>, addr: IpAddr, qtype: u16)
    ensures
        query.answer_to(addrs) == query.response_to(
            0,
            of_type(addrs, query.question.qtype).len() as u16,
            records(of_type(addrs, query.question.qtype), query.question.qtype),
        ),
        of_type(seq![], qtype) == Seq::<IpAddr>::empty(),
        (addr is V4 && qtype == 1) || (addr is V6 && qtype == 28) ==> of_type(
            addrs.push(addr),
            qtype,
        ) == of_type(addrs, qtype).push(addr),
        !(addr is V4 && qtype == 1) && !(addr is V6 && qtype == 28) ==> of_type(
            addrs.push(addr),
            qtype,
        ) == of_type(addrs, qtype),
{
    assert(addrs.push(addr).drop_last() =~= addrs);
}

/// A record is a pointer to the name in the question, the type, the Internet
/// class, a minute to live, and the octets of the address after their number;
/// records stand one after the other.
pub proof fn law_layout_of_records(addrs: Seq<IpAddr>, addr: IpAddr, qtype: u16)
    ensures
        records(seq![], qtype) == Seq::<u8>::empty(),
        records(addrs.push(addr), qtype) == records(addrs, qtype) + record_bytes(addr, qtype),
        record_bytes(addr, qtype).take(2) == seq![0xC0u8, 12u8],
        record_bytes(addr, qtype)[2] * 256 + record_bytes(addr, qtype)[3] == qtype,
        record_bytes(addr, qtype).subrange(4, 10) == seq![0u8, 1, 0, 0, 0, 60],
        record_bytes(addr, qtype).subrange(10, 12) == seq![
            0u8,
            if addr is V4 {
                4
            } else {
                16
            },
        ],
        record_bytes(addr, qtype).skip(12) == addr.octets(),
{
    let r = record_bytes(addr, qtype);
    assert(addrs.push(addr).drop_last() =~= addrs);
    assert(addr.octets().len() == if addr is V4 {
        4int
    } else {
        16
    });
    assert(r.take(2) =~= seq![0xC0u8, 12u8]);
    assert(r[2] == wire::be16_bytes(qtype)[0] && r[3] == wire::be16_bytes(qtype)[1]);
    wire::law_network_order(qtype, 60, r);
    assert(r.subrange(4, 10) =~= seq![0u8, 1, 0, 0, 0, 60]);
    assert(r.subrange(10, 12) =~= seq![
        0u8,
        if addr is V4 {
            4
        } else {
            16
        },
    ]);
    assert(r.skip(12) =~= addr.octets());
}

/// The response to a message that cannot be parsed has its id, or zeros if it
/// has none, says that it is a response and that the format is wrong, and has
/// no records.
pub proof fn law_layout_of_format_errors(raw: Seq<u8>)
    ensures
        formerr_bytes(raw) == seq![
            if raw.len() >= 2 {
                raw[0]
            } else {
                0u8
            },
            if raw.len() >= 2 {
                raw[1]
            } else {
                0u8
            },
            0x80u8,
            1u8,
            0,
            0,
            0,
            0,
            0,
            0,
            0,
            0,
        ],
{
    assert(0x8000u16 | 1u16 == 0x8001) by (bit_vector);
    assert(formerr_bytes(raw)[2] == 0x80 && formerr_bytes(raw)[3] == 1);
    assert(formerr_bytes(raw) =~= seq![
        if raw.len() >= 2 {
            raw[0]
        } else {
            0u8
        },
        if raw.len() >= 2 {
            raw[1]
        } else {
            0u8
        },
        0x80u8,
        1u8,
        0,
        0,
        0,
        0,
        0,
        0,
        0,
        0,
    ]);
}

/// A datagram answers a query if its first two octets are the query's.
pub proof fn law_answers_have_the_id(query: Seq<u8>, datagram: Seq<u8>)
    requires
        query.len() >= 2,
    ensures
        same_id(query, datagram) <==> datagram.len() >= 2 && datagram[0] == query[0] && datagram[1]
            == query[1],
{
    if datagram.len() >= 2 && datagram[0] == query[0] && datagram[1] == query[1] {
        assert(datagram.take(2) =~= query.take(2));
    }
    if same_id(query, datagram) {
        assert(datagram.take(2)[0] == query.take(2)[0]);
        assert(datagram.take(2)[1] == query.take(2)[1]);
    }
}

/// Which messages are refused before their name is read: those without a
/// header, responses, and those that have no question or more than one.
pub proof fn law_messages_that_are_no_queries(raw: Seq<u8>)
    ensures
        raw.len() < 12 ==> parsed_question(raw) == Err::<QuestionView, ParseError>(
            ParseError::TooShort,
        ),
        raw.len() >= 12 && raw[2] >= 0x80 ==> parsed_question(raw) == Err::<
            QuestionView,
            ParseError,
        >(ParseError::NotAQuery),
        raw.len() >= 12 && raw[2] < 0x80 && !(raw[4] == 0 && raw[5] == 1) ==> parsed_question(raw)
            == Err::<QuestionView, ParseError>(
            ParseError::QuestionCount((raw[4] * 256 + raw[5]) as u16),
        ),
{
    lemma_response_bit(raw);
}

proof fn lemma_response_bit(raw: Seq<u8>)
    ensures
        wire::be16_at(raw, 2) & FLAG_QR != 0 <==> raw[2] >= 0x80,
{
    let flags = wire::be16_at(raw, 2);
    assert(flags == raw[2] * 256 + raw[3]);
    assert(flags & 0x8000u16 != 0 <==> flags >= 0x8000u16) by (bit_vector);
}

/// The question of a message with a header for one: the name that starts after
/// the header, its labels with dots between them, and the type and the class
/// in the four octets after it. There is none without such a name, or when the
/// message ends before those octets do.
pub proof fn law_questions(raw: Seq<u8>, labels: Seq<Seq<char>>, at: int)
    requires
        raw.len() >= 12,
        raw[2] < 0x80,
        raw[4] == 0 && raw[5] == 1,
    ensures
        labels_at(raw, 12) is None ==> parsed_question(raw) == Err::<QuestionView, ParseError>(
            ParseError::BadName,
        ),
        labels_at(raw, 12) == Some((labels, at)) && at + 4 > raw.len() ==> parsed_question(raw)
            == Err::<QuestionView, ParseError>(ParseError::TooShort),
        labels_at(raw, 12) == Some((labels, at)) && at + 4 <= raw.len() ==> parsed_question(raw)
            == Ok::<QuestionView, ParseError>(
            QuestionView {
                name: text::join(labels, '.'),
                qtype: (raw[at] * 256 + raw[at + 1]) as u16,
                qclass: (raw[at + 2] * 256 + raw[at + 3]) as u16,
                end: at + 4,
            },
        ),
{
    lemma_response_bit(raw);
}

/// A name is read label by label, each after an octet with its length, up to
/// an empty one. A length of more than 63, a label that runs over the end of
/// the message, and a name of more than 255 octets make it none.
pub proof fn law_names_are_read_by_labels(raw: Seq<u8>, at: int)
    requires
        12 <= at <= raw.len(),
    ensures
        at == raw.len() ==> labels_at(raw, at) is None,
        at < raw.len() && raw[at] == 0 ==> labels_at(raw, at) == Some(
            (Seq::<Seq<char>>::empty(), at + 1),
        ),
        at < raw.len() && raw[at] > 63 ==> labels_at(raw, at) is None,
        at < raw.len() && at + 1 + raw[at] > raw.len() ==> labels_at(raw, at) is None,
        at < raw.len() && 0 < raw[at] && at + 1 + raw[at] > 12 + 255 ==> labels_at(raw, at) is None,
        at < raw.len() && 0 < raw[at] <= 63 && at + 1 + raw[at] <= raw.len() && at + 1 + raw[at]
            <= 12 + 255 ==> match labels_at(raw, at + 1 + raw[at]) {
            Some((labels, end)) => labels_at(raw, at) == Some(
                (seq![label_text(raw.subrange(at + 1, at + 1 + raw[at]))] + labels, end),
            ),
            None => labels_at(raw, at) is None,
        },
{
}

/// A label is text in lower case; one of ASCII is its characters, with small
/// letters for capitals.
pub proof fn law_labels(label: Seq<u8>)
    ensures
        label_text(label) == text::lower(text::lossy_text(label)),
        (forall|i: int| 0 <= i < label.len() ==> #[trigger] label[i] < 0x80) ==> label_text(label)
            == text::lower(label.map_values(|b: u8| b as char)),
{
    if forall|i: int| 0 <= i < label.len() ==> #[trigger] label[i] < 0x80 {
        text::law_ascii_text(label);
    }
}

/// A message over TCP has two octets with its length before it, and is not
/// changed otherwise.
pub proof fn law_layout_of_frames(message: Seq<u8>)
    requires
        message.len() <= 65535,
    ensures
        frame_bytes(message).len() == 2 + message.len(),
        frame_bytes(message)[0] * 256 + frame_bytes(message)[1] == message.len(),
        frame_bytes(message).skip(2) == message,
{
    law_frames_round_trip(message);
}

/// A step is what it is, with the response to the octet.
pub proof fn law_views_of_steps(bytes: Vec<u8>)
    ensures
        Step::Reply(bytes)@ == StepView::Reply(bytes@),
        Step::Forward@ == StepView::Forward,
{
}

} // verus!
