use deezns::addr::{IpAddr, SocketAddr};
use deezns::dns::{
    answers_query, formerr, frame_len, framed, local_for, Frontend, ParseError, Query, Step,
    ANSWER_TTL, CLASS_IN, FLAG_QR, FLAG_RA, FLAG_RD, HEADER_LEN, MAX_MESSAGE, RCODE_FORMERR,
    RCODE_NOERROR, RCODE_NXDOMAIN, RCODE_SERVFAIL, TYPE_A, TYPE_AAAA,
};
use deezns::policy::{
    Caller, DefaultVerdict, DnsFrontendConfig, PolicyConfig, PolicyEngine, PolicySocketConfig,
    PolicyVerdict, RuleConfig, RuleVerdict,
};
use deezns::relay::Relays;
use deezns::wire::be16;
use std::sync::Arc;

/// A query the way a stub resolver builds it: RD set, one question.
fn build_query(id: u16, name: &str, qtype: u16) -> Vec<u8> {
    let mut q = Vec::new();
    q.extend_from_slice(&id.to_be_bytes());
    q.extend_from_slice(&FLAG_RD.to_be_bytes());
    q.extend_from_slice(&[0, 1, 0, 0, 0, 0, 0, 0]);
    for label in name.split('.').filter(|l| !l.is_empty()) {
        q.push(label.len() as u8);
        q.extend_from_slice(label.as_bytes());
    }
    q.push(0);
    q.extend_from_slice(&qtype.to_be_bytes());
    q.extend_from_slice(&CLASS_IN.to_be_bytes());
    q
}

fn rcode(reply: &[u8]) -> u16 {
    be16(reply, 2).unwrap() & 0x000F
}

fn ancount(reply: &[u8]) -> u16 {
    be16(reply, 6).unwrap()
}

const V6: [u8; 16] = [0xfd, 0, 0, 0, 0, 0, 0, 0, 0, 0, 0, 0, 0, 0, 0, 1];

#[test]
fn queries_parse() {
    let raw = build_query(0x1234, "Sub.Example.TEST", TYPE_AAAA);
    let query = Query::parse(&raw).unwrap();
    assert_eq!(query.id, 0x1234);
    assert_eq!(query.question.name, "sub.example.test");
    assert_eq!(query.question.qtype, TYPE_AAAA);
    assert_eq!(query.question.qclass, CLASS_IN);
    assert_eq!(query.question.end, raw.len());

    let root = Query::parse(&build_query(1, ".", TYPE_A)).unwrap();
    assert_eq!(root.question.name, "");

    assert_eq!(Query::parse(&raw[..11]), Err(ParseError::TooShort));

    let mut response = raw.clone();
    response[2] |= 0x80;
    assert_eq!(Query::parse(&response), Err(ParseError::NotAQuery));

    let mut two_questions = raw.clone();
    two_questions[5] = 2;
    assert_eq!(
        Query::parse(&two_questions),
        Err(ParseError::QuestionCount(2))
    );

    let mut pointer = raw.clone();
    pointer[12] = 0xC0;
    assert_eq!(Query::parse(&pointer), Err(ParseError::BadName));

    let truncated = &raw[..raw.len() - 1];
    assert_eq!(Query::parse(truncated), Err(ParseError::TooShort));
}

#[test]
fn negative_replies_echo_the_question() {
    let raw = build_query(7, "blocked.test", TYPE_A);
    let query = Query::parse(&raw).unwrap();

    let reply = query.nxdomain();
    assert_eq!(be16(&reply, 0), Some(7));
    assert_eq!(
        be16(&reply, 2),
        Some(FLAG_QR | FLAG_RD | FLAG_RA | RCODE_NXDOMAIN)
    );
    assert_eq!(&reply[4..12], &[0, 1, 0, 0, 0, 0, 0, 0]);
    assert_eq!(&reply[12..], &raw[12..]);

    assert_eq!(rcode(&query.servfail()), RCODE_SERVFAIL);

    let junk = formerr(&[0xAB, 0xCD, 1, 2]);
    assert_eq!(be16(&junk, 0), Some(0xABCD));
    assert_eq!(rcode(&junk), RCODE_FORMERR);
    assert_eq!(junk.len(), HEADER_LEN);
    assert_eq!(formerr(&[]).len(), HEADER_LEN);
}

#[test]
fn answers_carry_the_addresses_of_the_asked_type() {
    let v4 = IpAddr::V4([10, 0, 0, 1]);
    let v6 = IpAddr::V6(V6);

    let raw = build_query(9, "example.local", TYPE_A);
    let query = Query::parse(&raw).unwrap();
    let reply = query.answer(&[v4, v6]);
    assert_eq!(rcode(&reply), RCODE_NOERROR);
    assert_eq!(ancount(&reply), 1);
    let rr = &reply[raw.len()..];
    let mut expected = vec![0xC0, 12, 0, 1, 0, 1];
    expected.extend_from_slice(&ANSWER_TTL.to_be_bytes());
    expected.extend_from_slice(&[0, 4, 10, 0, 0, 1]);
    assert_eq!(rr, &expected[..]);

    let query = Query::parse(&build_query(9, "example.local", TYPE_AAAA)).unwrap();
    let reply = query.answer(&[v4, v6]);
    assert_eq!(ancount(&reply), 1);
    assert_eq!(&reply[reply.len() - 16..], &V6);

    let query = Query::parse(&build_query(9, "example.local", 16)).unwrap();
    let reply = query.answer(&[v4, v6]);
    assert_eq!(rcode(&reply), RCODE_NOERROR);
    assert_eq!(ancount(&reply), 0);
}

#[test]
fn answers_keep_their_order() {
    let raw = build_query(9, "a.test", TYPE_A);
    let query = Query::parse(&raw).unwrap();
    let addrs = [
        IpAddr::V4([1, 1, 1, 1]),
        IpAddr::V6(V6),
        IpAddr::V4([2, 2, 2, 2]),
    ];
    let reply = query.answer(&addrs);
    assert_eq!(ancount(&reply), 2);
    assert_eq!(reply.len(), raw.len() + 32);
    assert_eq!(&reply[raw.len() + 12..raw.len() + 16], &[1, 1, 1, 1]);
    assert_eq!(&reply[raw.len() + 28..], &[2, 2, 2, 2]);
}

#[test]
fn names_have_limits() {
    let long = "a".repeat(63);
    let name = format!("{long}.{long}.{long}.{}", "b".repeat(62));
    let query = Query::parse(&build_query(1, &name, TYPE_A)).unwrap();
    assert_eq!(query.question.name, name);

    let name = format!("{long}.{long}.{long}.{long}");
    assert_eq!(
        Query::parse(&build_query(1, &name, TYPE_A)),
        Err(ParseError::BadName)
    );
    assert_eq!(
        Query::parse(&build_query(1, &"a".repeat(64), TYPE_A)),
        Err(ParseError::BadName)
    );

    let raw = build_query(1, "a.test", TYPE_A);
    assert_eq!(Query::parse(&raw[..12]), Err(ParseError::BadName));
    assert_eq!(Query::parse(&raw[..15]), Err(ParseError::BadName));
    assert_eq!(Query::parse(&raw[..20]), Err(ParseError::TooShort));
    assert_eq!(Query::parse(&raw[..22]), Err(ParseError::TooShort));
    let mut none = raw.clone();
    none[5] = 0;
    assert_eq!(Query::parse(&none), Err(ParseError::QuestionCount(0)));
}

#[test]
fn labels_that_are_not_utf8_are_replaced() {
    let mut raw = build_query(1, "abcd.test", TYPE_A);
    raw[14] = 0xff;
    let query = Query::parse(&raw).unwrap();
    assert_eq!(query.question.name, "a\u{fffd}cd.test");

    let raw = build_query(1, "É.test", TYPE_A);
    let query = Query::parse(&raw).unwrap();
    assert_eq!(query.question.name, "É.test");
}

#[test]
fn what_follows_the_question_is_kept_and_not_echoed() {
    let mut raw = build_query(1, "a.test", TYPE_A);
    let end = raw.len();
    raw[11] = 1;
    raw.extend_from_slice(&[0, 0, 41, 16, 0, 0, 0, 0, 0, 0, 0]);
    let query = Query::parse(&raw).unwrap();
    assert_eq!(query.raw, raw);
    assert_eq!(query.question.end, end);
    assert_eq!(query.servfail().len(), end);
}

#[test]
fn responses_copy_opcode_and_rd_only() {
    let mut raw = build_query(1, "a.test", TYPE_A);
    raw[2] = 0x7f;
    raw[3] = 0xff;
    let reply = Query::parse(&raw).unwrap().nxdomain();
    assert_eq!(be16(&reply, 2), Some(0xf983));
    raw[2] = 0;
    raw[3] = 0;
    let reply = Query::parse(&raw).unwrap().servfail();
    assert_eq!(be16(&reply, 2), Some(0x8082));
}

#[test]
fn own_responses_are_no_queries() {
    let query = Query::parse(&build_query(1, "a.test", TYPE_A)).unwrap();
    assert_eq!(Query::parse(&query.nxdomain()), Err(ParseError::NotAQuery));
    assert_eq!(Query::parse(&query.servfail()), Err(ParseError::NotAQuery));
    assert_eq!(Query::parse(&query.answer(&[])), Err(ParseError::NotAQuery));
    assert_eq!(Query::parse(&formerr(&query.raw)), Err(ParseError::NotAQuery));
}

#[test]
fn frames_carry_their_length() {
    assert_eq!(framed(&[7, 8, 9]), vec![0, 3, 7, 8, 9]);
    let long = vec![1u8; MAX_MESSAGE];
    let frame = framed(&long);
    assert_eq!(frame_len([frame[0], frame[1]]), MAX_MESSAGE);
    assert_eq!(&frame[2..], &long[..]);
    assert_eq!(frame_len([1, 2]), 258);
}

#[test]
fn stray_datagrams_have_another_id() {
    let query = build_query(0x0102, "a.test", TYPE_A);
    assert!(answers_query(&query, &[1, 2]));
    assert!(answers_query(&query, &[1, 2, 3]));
    assert!(!answers_query(&query, &[1, 3, 3]));
    assert!(!answers_query(&query, &[2, 2, 3]));
    assert!(!answers_query(&query, &[1]));
    assert!(!answers_query(&query, &[]));
}

#[test]
fn the_local_address_is_of_the_upstreams_family() {
    let four = SocketAddr::new(IpAddr::V4([192, 0, 2, 1]), 53);
    let six = SocketAddr::new(IpAddr::V6(V6), 53);
    assert_eq!(local_for(&four), SocketAddr::new(IpAddr::V4([0; 4]), 0));
    assert_eq!(local_for(&six), SocketAddr::new(IpAddr::V6([0; 16]), 0));
}

// ── A front-end and its caller ────────────────────────────────────────────

const UID: u32 = 1000;
const GID: u32 = 100;
const PID: i32 = 4242;

fn rule(note: &str, expr: &str, verdict: RuleVerdict) -> RuleConfig {
    RuleConfig {
        note: note.to_string(),
        expr: expr.to_string(),
        verdict,
    }
}

fn policy_for_this_user() -> PolicyConfig {
    PolicyConfig {
        default_verdict: DefaultVerdict::Passthrough,
        blocklists: vec![],
        rules: vec![
            rule("blocked", r#"hostname == "blocked.test""#, RuleVerdict::Deny),
            rule(
                "mine",
                r#"uid == 1000 && gid == 100 && pid == 4242 && hostname == "mine.test""#,
                RuleVerdict::Allow,
            ),
            rule("not mine", r#"hostname == "mine.test""#, RuleVerdict::Deny),
            rule(
                "daemon record",
                r#"hostname == "example.local""#,
                RuleVerdict::Allow,
            ),
            rule("root", r#"hostname == ".""#, RuleVerdict::Deny),
        ],
        policy_socket: PolicySocketConfig { relay_users: vec![] },
        nscd_frontend: None,
        dns_frontend: None,
    }
}

fn start_frontend() -> Frontend {
    let engine = Arc::new(PolicyEngine::load(&policy_for_this_user(), &[]).unwrap());
    Frontend::new(
        &DnsFrontendConfig {
            listen: SocketAddr::new(IpAddr::V4([127, 0, 0, 1]), 5353),
            upstream: SocketAddr::new(IpAddr::V4([192, 0, 2, 53]), 53),
            upstream_timeout_ms: 300,
            relay_users: vec![],
        },
        engine,
    )
}

/// What one message from a caller gets, or `None` when it is forwarded.
fn ask(front: &Frontend, raw: &[u8], caller: &Caller) -> Option<Vec<u8>> {
    match Frontend::receive(raw) {
        Err(reply) => Some(reply),
        Ok(query) => match front.respond_checked(&query, caller).unwrap() {
            Step::Reply(reply) => Some(reply),
            Step::Forward => {
                assert_eq!(query.raw, raw);
                None
            }
        },
    }
}

fn me() -> Caller {
    Caller::new(UID, GID, PID)
}

#[test]
fn denied_names_get_nxdomain_without_asking_upstream() {
    let front = start_frontend();

    let reply = ask(&front, &build_query(1, "Blocked.Test", TYPE_A), &me()).unwrap();
    assert_eq!(rcode(&reply), RCODE_NXDOMAIN);
    assert_eq!(be16(&reply, 0), Some(1));

    let reply = ask(&front, &build_query(2, "blocked.test", TYPE_AAAA), &me()).unwrap();
    assert_eq!(rcode(&reply), RCODE_NXDOMAIN);
}

#[test]
fn other_names_are_forwarded_over_the_clients_transport() {
    let front = start_frontend();

    let udp_query = build_query(3, "unlisted.test", TYPE_A);
    assert_eq!(ask(&front, &udp_query, &me()), None);
    let query = Query::parse(&udp_query).unwrap();
    assert_eq!(Frontend::forwarded(&query, Some(vec![1, 2, 3])), vec![1, 2, 3]);

    let tcp_query = build_query(4, "unlisted.test", 16);
    assert_eq!(ask(&front, &tcp_query, &me()), None);
}

#[test]
fn the_caller_is_identified_from_its_socket() {
    let front = start_frontend();

    // Our own socket: uid, gid and pid all match, so the name is allowed
    // and forwarded rather than denied by the following rule.
    let query = build_query(5, "mine.test", TYPE_A);
    assert_eq!(ask(&front, &query, &me()), None);

    let query = build_query(6, "mine.test", TYPE_A);
    assert_eq!(ask(&front, &query, &me()), None);

    // A caller nobody can identify hits the deny rule.
    let reply = ask(&front, &query, &Caller::unknown()).unwrap();
    assert_eq!(rcode(&reply), RCODE_NXDOMAIN);
}

#[test]
fn dns_the_daemons_own_records_are_answered_directly() {
    let front = start_frontend();

    let query = build_query(8, "example.local", TYPE_A);
    let reply = ask(&front, &query, &me()).unwrap();
    assert_eq!(
        reply,
        Query::parse(&query)
            .unwrap()
            .answer(&[IpAddr::V4([10, 0, 0, 1])])
    );
    assert_eq!(ancount(&reply), 1);

    let reply = ask(&front, &build_query(9, "example.local", TYPE_AAAA), &me()).unwrap();
    assert_eq!(rcode(&reply), RCODE_NOERROR);
    assert_eq!(ancount(&reply), 0);
}

#[test]
fn an_unreachable_upstream_yields_servfail() {
    let front = start_frontend();

    for id in [10, 11] {
        let raw = build_query(id, "unlisted.test", TYPE_A);
        assert_eq!(ask(&front, &raw, &me()), None);
        let query = Query::parse(&raw).unwrap();
        let reply = Frontend::forwarded(&query, None);
        assert_eq!(rcode(&reply), RCODE_SERVFAIL);
        assert_eq!(be16(&reply, 0), Some(id));
    }

    // Denials never depend on the upstream.
    let reply = ask(&front, &build_query(12, "blocked.test", TYPE_A), &me()).unwrap();
    assert_eq!(rcode(&reply), RCODE_NXDOMAIN);
}

#[test]
fn malformed_messages_get_formerr() {
    let front = start_frontend();

    let reply = ask(&front, &[0x12, 0x34, 0, 0], &me()).unwrap();
    assert_eq!(be16(&reply, 0), Some(0x1234));
    assert_eq!(rcode(&reply), RCODE_FORMERR);

    let mut two = build_query(13, "blocked.test", TYPE_A);
    two[5] = 2;
    assert_eq!(rcode(&ask(&front, &two, &me()).unwrap()), RCODE_FORMERR);
}

#[test]
fn the_root_is_judged_like_any_other_name() {
    let front = start_frontend();
    let reply = ask(&front, &build_query(14, ".", TYPE_A), &me()).unwrap();
    assert_eq!(rcode(&reply), RCODE_NXDOMAIN);
}

#[test]
fn relays_are_forwarded_unjudged() {
    let front = start_frontend().with_relays(Relays::from_uids(&[7]));
    let query = build_query(15, "blocked.test", TYPE_A);
    assert_eq!(ask(&front, &query, &Caller::new(7, 7, 7)), None);
    assert!(ask(&front, &query, &me()).is_some());
    assert!(ask(&front, &query, &Caller::unknown()).is_some());
}

#[test]
fn verdicts_become_steps() {
    let front = start_frontend();
    let query = Query::parse(&build_query(16, "example.local", TYPE_A)).unwrap();
    let denied = PolicyVerdict::Denied("why".to_string());
    assert_eq!(Frontend::judge(&query, &denied), Step::Reply(query.nxdomain()));
    assert_eq!(Frontend::judge(&query, &PolicyVerdict::PassThrough), Step::Forward);
    assert_eq!(
        Frontend::judge(&query, &PolicyVerdict::Allowed),
        Step::Reply(query.answer(&[IpAddr::V4([10, 0, 0, 1])]))
    );
    assert_eq!(front.respond(&query, &me()), Frontend::judge(&query, &PolicyVerdict::Allowed));
}

#[test]
fn the_dns_front_end_keeps_its_configuration() {
    let front = start_frontend();
    assert_eq!(front.listen_addr().port(), 5353);
    assert_eq!(front.upstream_addr().ip(), IpAddr::V4([192, 0, 2, 53]));
    assert_eq!(front.upstream_timeout_ms(), 300);
}

#[test]
fn the_dns_front_end_keeps_the_scope_of_its_addresses() {
    let ip = [0xfe, 0x80, 0, 0, 0, 0, 0, 0, 0, 0, 0, 0, 0, 0, 0, 1];
    let scoped = SocketAddr::V6 { ip, port: 53, flowinfo: 7, scope_id: 2 };
    let config = DnsFrontendConfig {
        listen: scoped,
        upstream: scoped,
        upstream_timeout_ms: 300,
        relay_users: vec![],
    };
    let engine = Arc::new(PolicyEngine::load(&policy_for_this_user(), &[]).unwrap());
    let front = Frontend::new(&config, engine).with_relays(Relays::default());
    assert_eq!(front.listen_addr(), scoped);
    assert_eq!(front.upstream_addr(), scoped);
    assert_eq!(
        local_for(&scoped),
        SocketAddr::V6 { ip: [0; 16], port: 0, flowinfo: 0, scope_id: 0 }
    );
}

#[test]
fn only_the_question_is_interpreted() {
    let raw = build_query(9, "sub.example.test", TYPE_AAAA);
    let query = Query::parse(&raw).unwrap();
    for tail in [&[0u8][..], &[0, 0, 41, 16, 0, 0, 0, 0, 0, 0, 0], &[0xFF; 300]] {
        let mut longer = raw.clone();
        longer.extend_from_slice(tail);
        let other = Query::parse(&longer).unwrap();
        assert_eq!(other.id, query.id);
        assert_eq!(other.flags, query.flags);
        assert_eq!(other.question, query.question);
        assert_eq!(other.raw, longer);
    }
}

#[test]
fn letter_case_does_not_change_the_question() {
    let lower = Query::parse(&build_query(9, "sub.b\u{fc}cher.test", TYPE_A)).unwrap();
    let mixed = Query::parse(&build_query(9, "SuB.B\u{fc}CHer.tESt", TYPE_A)).unwrap();
    assert_eq!(lower.question, mixed.question);
    assert_eq!(lower.question.name, "sub.b\u{fc}cher.test");
    assert_ne!(lower.raw, mixed.raw);
    // Nor does it where bytes are replaced, one by one or several together.
    let mut names = Vec::new();
    for name in ["aabcd.ee.test", "AaBCd.eE.TeST"] {
        let mut raw = build_query(9, name, TYPE_A);
        raw[14] = 0xff;
        raw[19] = 0xe2;
        names.push(Query::parse(&raw).unwrap().question);
        raw[15] = 0xe2;
        raw[16] = 0x82;
        names.push(Query::parse(&raw).unwrap().question);
    }
    assert_eq!(names[0], names[2]);
    assert_eq!(names[1], names[3]);
    assert_eq!(names[0].name, "a\u{fffd}bcd.\u{fffd}e.test");
    assert_eq!(names[1].name, "a\u{fffd}\u{fffd}d.\u{fffd}e.test");
    // Only ASCII letters have a case here.
    let umlaut = Query::parse(&build_query(9, "sub.b\u{dc}cher.test", TYPE_A)).unwrap();
    assert_eq!(umlaut.question.name, "sub.b\u{dc}cher.test");
}
