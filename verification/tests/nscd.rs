use deezns::addr::IpAddr;
use deezns::nscd::{
    ai_found, ai_not_found, ai_not_found_in, found_in, hst_found, hst_not_found, hst_not_found_in,
    is_complete_reply_in, key_len, key_len_in, not_found_in, Frontend, Reply, Request,
    RequestType, Route, AF_INET, AF_INET6, HOST_NOT_FOUND, MAX_KEY_LEN, NO_DATA, TRY_AGAIN,
};
use deezns::policy::{
    Caller, DefaultVerdict, NscdFrontendConfig, PolicyConfig, PolicyEngine, PolicySocketConfig,
    PolicyVerdict, RuleConfig, RuleVerdict,
};
use deezns::wire::{order_of, ByteOrder};
use std::sync::Arc;

fn ints(bytes: &[u8]) -> Vec<i32> {
    assert!(bytes.len() % 4 == 0, "not a whole number of int32s");
    bytes
        .chunks_exact(4)
        .map(|w| i32::from_ne_bytes([w[0], w[1], w[2], w[3]]))
        .collect()
}

fn native() -> ByteOrder {
    if 1i32.to_ne_bytes() == 1i32.to_le_bytes() {
        ByteOrder::Little
    } else {
        ByteOrder::Big
    }
}

const V4: IpAddr = IpAddr::V4([1, 2, 3, 4]);
const LOCALHOST6: [u8; 16] = [0, 0, 0, 0, 0, 0, 0, 0, 0, 0, 0, 0, 0, 0, 0, 1];
const V6: IpAddr = IpAddr::V6(LOCALHOST6);

#[test]
fn request_types_round_trip_in_declaration_order() {
    assert_eq!(RequestType::from_i32(0), Some(RequestType::GetPwByName));
    assert_eq!(RequestType::from_i32(4), Some(RequestType::GetHostByName));
    assert_eq!(RequestType::from_i32(14), Some(RequestType::GetAi));
    assert_eq!(RequestType::from_i32(21), Some(RequestType::GetFdNetGr));
    assert_eq!(RequestType::from_i32(22), None);
    assert_eq!(RequestType::from_i32(-1), None);
    for n in 0..22 {
        let ty = RequestType::from_i32(n).unwrap();
        assert_eq!(ty.as_i32(), n);
        assert_eq!(RequestType::from_i32(ty.as_i32()), Some(ty));
    }
    assert!(RequestType::GetAi.is_host_lookup());
    assert!(RequestType::GetHostByNameV6.is_host_lookup());
    assert!(!RequestType::GetHostByAddr.is_host_lookup());
    assert!(!RequestType::GetPwByName.is_host_lookup());
}

#[test]
fn requests_parse_and_encode() {
    let raw = Request::encode(RequestType::GetAi, b"Example.Test\0");
    assert_eq!(ints(&raw[..12]), vec![2, 14, 13]);
    let request = Request::parse(&raw).unwrap();
    assert_eq!(request.ty, RequestType::GetAi);
    assert_eq!(request.hostname(), Some("Example.Test"));
    assert_eq!(request.raw, raw);

    let mut bad_version = raw.clone();
    bad_version[..4].copy_from_slice(&1i32.to_ne_bytes());
    assert!(Request::parse(&bad_version)
        .unwrap_err()
        .contains("version"));

    let mut bad_type = raw.clone();
    bad_type[4..8].copy_from_slice(&99i32.to_ne_bytes());
    assert!(Request::parse(&bad_type).unwrap_err().contains("type"));

    let too_long = Request::encode(RequestType::GetAi, &vec![b'a'; MAX_KEY_LEN + 1]);
    assert!(Request::parse(&too_long).unwrap_err().contains("exceeds"));

    assert!(Request::parse(&raw[..11]).is_err());
    assert!(Request::parse(&raw[..raw.len() - 1]).is_err());

    let empty = Request::parse(&Request::encode(RequestType::GetAi, b"\0")).unwrap();
    assert_eq!(empty.hostname(), None);
}

#[test]
fn parse_errors_say_what_is_wrong() {
    let raw = Request::encode(RequestType::GetAi, b"a.test\0");
    let with = |at: usize, value: i32| {
        let mut bytes = raw.clone();
        bytes[at..at + 4].copy_from_slice(&value.to_ne_bytes());
        Request::parse(&bytes).unwrap_err()
    };
    assert_eq!(Request::parse(&raw[..5]).unwrap_err(), "request too short: 5 bytes");
    assert_eq!(with(0, -2147483648), "unsupported protocol version -2147483648");
    assert_eq!(with(4, 22), "unknown request type 22");
    assert_eq!(with(4, -1), "unknown request type -1");
    assert_eq!(with(8, -7), "negative key length");
    assert_eq!(with(8, 1025), "key length 1025 exceeds 1024");
    assert_eq!(with(8, 1024), "key length 1024 does not match 7 bytes of key");
    assert_eq!(with(8, 0), "key length 0 does not match 7 bytes of key");
}

#[test]
fn requests_round_trip_in_either_byte_order() {
    for order in [ByteOrder::Little, ByteOrder::Big] {
        for n in 0..22 {
            let ty = RequestType::from_i32(n).unwrap();
            let raw = Request::encode_in(order, ty, b"some key");
            let request = Request::parse_in(order, &raw).unwrap();
            assert_eq!(request.ty, ty);
            assert_eq!(request.key, b"some key");
            assert_eq!(request.raw, raw);
            assert_eq!(key_len_in(order, &raw), Some(8));
        }
    }
    assert_eq!(
        Request::encode_in(ByteOrder::Big, RequestType::GetAi, b"k"),
        vec![0, 0, 0, 2, 0, 0, 0, 14, 0, 0, 0, 1, b'k']
    );
    assert_eq!(
        Request::encode_in(ByteOrder::Little, RequestType::GetAi, b"k"),
        vec![2, 0, 0, 0, 14, 0, 0, 0, 1, 0, 0, 0, b'k']
    );
}

#[test]
fn keys_that_are_too_long_are_not_read() {
    let header = |n: i32| {
        let mut raw = Request::encode(RequestType::GetAi, b"");
        raw[8..12].copy_from_slice(&n.to_ne_bytes());
        raw
    };
    assert_eq!(key_len(&header(0)), Some(0));
    assert_eq!(key_len(&header(1024)), Some(1024));
    assert_eq!(key_len(&header(1025)), None);
    assert_eq!(key_len(&header(-1)), None);
}

#[test]
fn host_names_are_utf8_with_or_without_a_terminator() {
    let name = |key: &[u8]| {
        Request::parse(&Request::encode(RequestType::GetAi, key))
            .unwrap()
            .hostname()
            .map(|s| s.to_string())
    };
    assert_eq!(name(b"a.test"), Some("a.test".to_string()));
    assert_eq!(name(b"a.test\0\0"), Some("a.test\0".to_string()));
    assert_eq!(name("é.test\0".as_bytes()), Some("é.test".to_string()));
    assert_eq!(name(b"\xff.test\0"), None);
    assert_eq!(name(b""), None);
}

#[test]
fn getai_replies_follow_nscd_layout() {
    let reply = ai_found("a.test", &[V4, V6]);
    assert_eq!(ints(&reply[..24]), vec![2, 1, 2, 20, 7, 0]);
    let mut expected = vec![1, 2, 3, 4];
    expected.extend_from_slice(&LOCALHOST6);
    expected.extend_from_slice(&[libc::AF_INET as u8, libc::AF_INET6 as u8]);
    expected.extend_from_slice(b"a.test\0");
    assert_eq!(&reply[24..], &expected[..]);

    let denied = ai_not_found(HOST_NOT_FOUND);
    assert_eq!(ints(&denied), vec![2, 0, 0, 0, 0, HOST_NOT_FOUND]);
    assert_eq!(ints(&ai_not_found(TRY_AGAIN))[5], TRY_AGAIN);
}

#[test]
fn gethostbyname_replies_follow_nscd_layout() {
    let reply = hst_found("a.test", libc::AF_INET, &[V4, V6]).unwrap();
    assert_eq!(ints(&reply[..32]), vec![2, 1, 7, 0, libc::AF_INET, 4, 1, 0]);
    assert_eq!(&reply[32..], b"a.test\0\x01\x02\x03\x04");

    let reply = hst_found("a.test", libc::AF_INET6, &[V4, V6]).unwrap();
    assert_eq!(
        ints(&reply[..32]),
        vec![2, 1, 7, 0, libc::AF_INET6, 16, 1, 0]
    );
    assert_eq!(&reply[39..], &LOCALHOST6[..]);

    assert_eq!(hst_found("a.test", libc::AF_INET6, &[V4]), None);
    assert_eq!(
        ints(&hst_not_found(HOST_NOT_FOUND)),
        vec![2, 0, 0, 0, -1, -1, 0, HOST_NOT_FOUND]
    );
    assert_eq!(
        ints(&found_in(native(), RequestType::GetHostByNameV6, "a.test", &[V4]))[7],
        NO_DATA
    );
}

#[test]
fn address_families_are_the_systems() {
    assert_eq!(AF_INET, libc::AF_INET);
    assert_eq!(AF_INET6, libc::AF_INET6);
}

#[test]
fn own_replies_are_complete() {
    for order in [ByteOrder::Little, ByteOrder::Big] {
        for ty in [
            RequestType::GetAi,
            RequestType::GetHostByName,
            RequestType::GetHostByNameV6,
        ] {
            for error in [HOST_NOT_FOUND, TRY_AGAIN, NO_DATA] {
                let reply = not_found_in(order, ty, error);
                assert!(is_complete_reply_in(order, ty, &reply));
                assert!(!is_complete_reply_in(order, ty, &reply[..reply.len() - 1]));
            }
            for addrs in [vec![V4, V6, V4], vec![V4], vec![V6]] {
                let reply = found_in(order, ty, "a.test", &addrs);
                assert!(is_complete_reply_in(order, ty, &reply));
                let mut longer = reply.clone();
                longer.push(0);
                assert!(!is_complete_reply_in(order, ty, &longer));
            }
        }
    }
}

fn words(values: &[i32]) -> Vec<u8> {
    values.iter().flat_map(|v| v.to_le_bytes()).collect()
}

#[test]
fn incomplete_replies_are_recognised() {
    let order = ByteOrder::Little;
    let ai = |values: &[i32], extra: usize| {
        let mut reply = words(values);
        reply.resize(reply.len() + extra, 0);
        is_complete_reply_in(order, RequestType::GetAi, &reply)
    };
    assert!(ai(&[2, 1, 1, 4, 7, 0], 12));
    assert!(!ai(&[2, 1, 1, 4, 7, 0], 11));
    assert!(!ai(&[1, 1, 1, 4, 7, 0], 12));
    assert!(!ai(&[2, -1, 0, 0, 0, 0], 0));
    assert!(!ai(&[2, 2, 0, 0, 0, 0], 0));
    assert!(!ai(&[2, 1, -1, 4, 7, 0], 10));
    assert!(!ai(&[2, 0, 0, 0, 0, 0], 1));
    assert!(!ai(&[2, 0, 0, 0, 0], 0));

    let hst = |values: &[i32], extra: usize| {
        let mut reply = words(values);
        reply.resize(reply.len() + extra, 0);
        is_complete_reply_in(order, RequestType::GetHostByName, &reply)
    };
    assert!(hst(&[2, 1, 4, 0, 2, 4, 2, 0], 12));
    assert!(!hst(&[2, 1, 4, 0, 2, 4, 2, 0], 13));
    assert!(!hst(&[2, -1, 0, 0, 0, 0, 0, 0], 0));
    assert!(!hst(&[2, 1, 4, -1, 2, 4, 2, 0], 8));
    // Two aliases: their lengths follow the name.
    assert!(hst(&[2, 1, 0, 2, 2, 4, 1, 0, 3, 5], 4 + 3 + 5));
    assert!(!hst(&[2, 1, 0, 2, 2, 4, 1, 0, 3, -5], 4 + 3));
    assert!(!hst(&[2, 1, 0, 2, 2, 4, 1, 0, 3], 0));
    assert!(!hst(&[2, 1, 2147483647, 2147483647, 2, 2147483647, 2147483647, 0], 0));
}

// ── A front-end and its caller ────────────────────────────────────────────

const UID: u32 = 1000;
const GID: u32 = 100;
const PID: i32 = 4242;

const CANNED: &[u8] = b"canned reply from upstream";

fn rule(note: &str, expr: &str, verdict: RuleVerdict) -> RuleConfig {
    RuleConfig {
        note: note.to_string(),
        expr: expr.to_string(),
        verdict,
    }
}

fn policy_for_this_user() -> PolicyConfig {
    PolicyConfig {
        default_verdict: DefaultVerdict::Passthrough,
        blocklists: vec![],
        rules: vec![
            rule("blocked", r#"hostname == "blocked.test""#, RuleVerdict::Deny),
            rule(
                "mine",
                r#"uid == 1000 && gid == 100 && pid == 4242 && hostname == "mine.test""#,
                RuleVerdict::Allow,
            ),
            rule("not mine", r#"hostname == "mine.test""#, RuleVerdict::Deny),
            rule(
                "daemon record",
                r#"hostname == "example.local""#,
                RuleVerdict::Allow,
            ),
        ],
        policy_socket: PolicySocketConfig { relay_users: vec![] },
        nscd_frontend: None,
        dns_frontend: None,
    }
}

fn start_frontend() -> Frontend {
    let engine = Arc::new(PolicyEngine::load(&policy_for_this_user(), &[]).unwrap());
    Frontend::new(
        &NscdFrontendConfig {
            listen: "/run/nscd/socket".to_string(),
            upstream: "/run/nsncd/socket".to_string(),
        },
        engine,
    )
}

fn me() -> Caller {
    Caller::new(UID, GID, PID)
}

/// What a request gets when the upstream answers with `reply`.
fn ask(front: &Frontend, raw: &[u8], reply: Option<&[u8]>) -> Reply {
    let request = Request::parse(raw).unwrap();
    match front.reply_for_checked(&request, &me()).unwrap() {
        Route::Reply(reply) => reply,
        Route::Forward => {
            assert_eq!(request.raw, raw);
            front.forwarded(request.ty, reply.map(|b| b.to_vec()))
        }
    }
}

#[test]
fn denials_are_answered_without_asking_upstream() {
    let front = start_frontend();

    let reply = ask(
        &front,
        &Request::encode(RequestType::GetAi, b"blocked.test\0"),
        Some(CANNED),
    );
    assert_eq!(reply, Reply::Bytes(ai_not_found(HOST_NOT_FOUND)));

    let reply = ask(
        &front,
        &Request::encode(RequestType::GetHostByName, b"BLOCKED.test\0"),
        Some(CANNED),
    );
    assert_eq!(reply, Reply::Bytes(hst_not_found(HOST_NOT_FOUND)));
}

#[test]
fn passthrough_and_other_requests_are_forwarded_verbatim() {
    let front = start_frontend();
    let canned = || Reply::Bytes(CANNED.to_vec());

    let getai = Request::encode(RequestType::GetAi, b"unlisted.test\0");
    assert_eq!(ask(&front, &getai, Some(CANNED)), canned());

    let getpw = Request::encode(RequestType::GetPwByName, b"alice\0");
    assert_eq!(ask(&front, &getpw, Some(CANNED)), canned());

    let byaddr = Request::encode(RequestType::GetHostByAddr, &[127, 0, 0, 1]);
    assert_eq!(ask(&front, &byaddr, Some(CANNED)), canned());
}

#[test]
fn the_callers_own_credentials_reach_the_policy() {
    let front = start_frontend();

    // We are the caller, so the uid/gid/pid rule matches and the name
    // is allowed (and, having no local records, forwarded).
    let raw = Request::encode(RequestType::GetAi, b"mine.test\0");
    assert_eq!(ask(&front, &raw, Some(CANNED)), Reply::Bytes(CANNED.to_vec()));

    // Directly: another caller gets the deny rule.
    let request = Request::parse(&raw).unwrap();
    let someone_else = Caller::new(UID + 1, 0, 1);
    assert_eq!(
        front.reply_for(&request, &someone_else),
        Route::Reply(Reply::Bytes(ai_not_found(HOST_NOT_FOUND)))
    );
}

#[test]
fn nscd_the_daemons_own_records_are_answered_directly() {
    let front = start_frontend();
    let ten = IpAddr::V4([10, 0, 0, 1]);

    let reply = ask(
        &front,
        &Request::encode(RequestType::GetAi, b"example.local\0"),
        None,
    );
    assert_eq!(reply, Reply::Bytes(ai_found("example.local", &[ten])));

    let reply = ask(
        &front,
        &Request::encode(RequestType::GetHostByName, b"example.local\0"),
        None,
    );
    assert_eq!(
        reply,
        Reply::Bytes(hst_found("example.local", libc::AF_INET, &[ten]).unwrap())
    );

    let reply = ask(
        &front,
        &Request::encode(RequestType::GetHostByNameV6, b"example.local\0"),
        None,
    );
    assert_eq!(reply, Reply::Bytes(hst_not_found(NO_DATA)));
}

#[test]
fn an_unreachable_upstream_degrades_safely() {
    let front = start_frontend();

    // Host lookups get a temporary failure, never a "no nscd" signal.
    let reply = ask(
        &front,
        &Request::encode(RequestType::GetAi, b"unlisted.test\0"),
        None,
    );
    assert_eq!(reply, Reply::Bytes(ai_not_found(TRY_AGAIN)));
    let reply = ask(
        &front,
        &Request::encode(RequestType::GetHostByName, b"unlisted.test\0"),
        None,
    );
    assert_eq!(reply, Reply::Bytes(hst_not_found(TRY_AGAIN)));

    // Denials still work without an upstream.
    let reply = ask(
        &front,
        &Request::encode(RequestType::GetAi, b"blocked.test\0"),
        None,
    );
    assert_eq!(reply, Reply::Bytes(ai_not_found(HOST_NOT_FOUND)));

    // Everything else: closed without a reply, so glibc serves it itself.
    let reply = ask(
        &front,
        &Request::encode(RequestType::GetPwByName, b"alice\0"),
        None,
    );
    assert_eq!(reply, Reply::Close);
}

#[test]
fn malformed_requests_are_dropped() {
    let mut bad_version = Request::encode(RequestType::GetAi, b"unlisted.test\0");
    bad_version[..4].copy_from_slice(&1i32.to_ne_bytes());
    assert!(Request::parse(&bad_version).is_err());

    let mut huge_key = Request::encode(RequestType::GetAi, b"x\0");
    huge_key[8..12].copy_from_slice(&(MAX_KEY_LEN as i32 + 1).to_ne_bytes());
    assert_eq!(key_len(&huge_key), None);
    assert!(Request::parse(&huge_key).is_err());
}

#[test]
fn a_host_request_without_a_name_is_closed() {
    let front = start_frontend();
    let raw = Request::encode(RequestType::GetAi, b"\0");
    assert_eq!(ask(&front, &raw, Some(CANNED)), Reply::Close);
}

#[test]
fn checked_replies_are_complete_or_a_temporary_failure() {
    let front = start_frontend();
    let canned = || Some(CANNED.to_vec());
    let try_again = Reply::Bytes(ai_not_found(TRY_AGAIN));

    assert_eq!(front.forwarded_if_complete(RequestType::GetAi, canned()), try_again);
    assert_eq!(front.forwarded_if_complete(RequestType::GetAi, None), try_again);
    let mut not_served = ai_not_found(HOST_NOT_FOUND);
    not_served[4..8].copy_from_slice(&(-1i32).to_ne_bytes());
    assert_eq!(
        front.forwarded_if_complete(RequestType::GetAi, Some(not_served)),
        try_again
    );
    let good = ai_found("a.test", &[V4]);
    assert_eq!(
        front.forwarded_if_complete(RequestType::GetAi, Some(good.clone())),
        Reply::Bytes(good)
    );
    let good = hst_found("a.test", AF_INET, &[V4]).unwrap();
    assert_eq!(
        front.forwarded_if_complete(RequestType::GetHostByName, Some(good.clone())),
        Reply::Bytes(good)
    );
    // Other requests are relayed as they are.
    assert_eq!(
        front.forwarded_if_complete(RequestType::GetPwByName, canned()),
        Reply::Bytes(CANNED.to_vec())
    );
    assert_eq!(
        front.forwarded_if_complete(RequestType::GetPwByName, None),
        Reply::Close
    );
}

#[test]
fn verdicts_become_routes() {
    let front = start_frontend();
    let denied = PolicyVerdict::Denied("why".to_string());
    assert_eq!(
        front.judge(RequestType::GetAi, "example.local", &denied),
        Route::Reply(Reply::Bytes(ai_not_found(HOST_NOT_FOUND)))
    );
    assert_eq!(
        front.judge(RequestType::GetAi, "example.local", &PolicyVerdict::PassThrough),
        Route::Forward
    );
    assert_eq!(
        front.judge(RequestType::GetAi, "other.local", &PolicyVerdict::Allowed),
        Route::Forward
    );
}

#[test]
fn replies_come_in_the_byte_order_asked_for() {
    let engine = Arc::new(PolicyEngine::load(&policy_for_this_user(), &[]).unwrap());
    let config = NscdFrontendConfig {
        listen: "a".to_string(),
        upstream: "b".to_string(),
    };
    let front = Frontend::new_in(ByteOrder::Big, &config, engine);
    assert_eq!(
        front.forwarded(RequestType::GetAi, None),
        Reply::Bytes(ai_not_found_in(ByteOrder::Big, TRY_AGAIN))
    );
    assert_eq!(
        hst_not_found_in(ByteOrder::Big, TRY_AGAIN)[..8],
        [0, 0, 0, 2, 0, 0, 0, 0]
    );
    assert_eq!(ai_not_found(NO_DATA), ai_not_found_in(native(), NO_DATA));
}

#[test]
fn the_byte_order_shows_in_a_word() {
    assert_eq!(order_of([1, 0, 0, 0]), ByteOrder::Little);
    assert_eq!(order_of([0, 0, 0, 1]), ByteOrder::Big);
    assert_eq!(order_of(1i32.to_ne_bytes()), native());
}

#[test]
fn the_nscd_front_end_keeps_its_configuration() {
    let front = start_frontend();
    assert_eq!(front.listen_path(), "/run/nscd/socket");
    assert_eq!(front.upstream_path(), "/run/nsncd/socket");
}
