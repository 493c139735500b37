use deezns::addr::IpAddr;
use deezns::limits::{CLIENT_TIMEOUT_MS, MAX_CONNECTIONS, NSCD_TIMEOUT_MS};
use deezns::nss::{
    filter_addrs, get_all_entries, get_host_by_addr, get_host_by_name, AddressFamily, Addresses,
    Answer, Host,
};
use deezns::policy::{
    Caller, DefaultVerdict, PolicyConfig, PolicyEngine, PolicySocketConfig, PolicyVerdict,
    RuleConfig, RuleVerdict,
};
use deezns::protocol::{ResolveRequest, ResolveResponse, DEFAULT_SOCKET_PATH};
use deezns::relay::Relays;
use deezns::session::{judge, respond, respond_checked};
use deezns::upstream::upstream_resolve;

fn engine() -> PolicyEngine {
    let rule = |note: &str, expr: &str, verdict: RuleVerdict| RuleConfig {
        note: note.to_string(),
        expr: expr.to_string(),
        verdict,
    };
    let config = PolicyConfig {
        default_verdict: DefaultVerdict::Passthrough,
        blocklists: vec![],
        rules: vec![
            rule("blocked", r#"hostname == "blocked.test""#, RuleVerdict::Deny),
            rule("rest", "uid == 0", RuleVerdict::Allow),
        ],
        policy_socket: PolicySocketConfig { relay_users: vec![] },
        nscd_frontend: None,
        dns_frontend: None,
    };
    PolicyEngine::load(&config, &[]).unwrap()
}

fn ask(hostname: &str, uid: u32, relays: &Relays) -> ResolveResponse {
    let request = ResolveRequest { hostname: hostname.to_string() };
    let caller = Caller::new(uid, 0, 1);
    let response = respond_checked(&engine(), relays, &caller, &request).unwrap();
    assert_eq!(response, respond(&engine(), relays, &caller, &request));
    response
}

fn ten() -> IpAddr {
    IpAddr::V4([10, 0, 0, 1])
}

#[test]
fn requests_are_answered_by_the_policy() {
    let none = Relays::default();
    assert_eq!(
        ask("Blocked.test.", 0, &none),
        ResolveResponse::Denied { reason: "matched rule: blocked".to_string() }
    );
    assert_eq!(ask("other.test", 1, &none), ResolveResponse::PassThrough);
    assert_eq!(ask("other.test", 0, &none), ResolveResponse::PassThrough);
    assert_eq!(
        ask("example.local", 0, &none),
        ResolveResponse::Resolved { addresses: vec![ten()] }
    );
    assert_eq!(ask("example.local", 1, &none), ResolveResponse::PassThrough);
}

#[test]
fn relays_are_passed_through_unjudged() {
    let relays = Relays::from_uids(&[0]);
    assert_eq!(ask("blocked.test", 0, &relays), ResolveResponse::PassThrough);
    assert_eq!(ask("example.local", 0, &relays), ResolveResponse::PassThrough);
    assert!(matches!(
        ask("blocked.test", 1, &relays),
        ResolveResponse::Denied { .. }
    ));
}

#[test]
fn verdicts_become_responses() {
    assert_eq!(
        judge("a", PolicyVerdict::Denied("why".to_string())),
        ResolveResponse::Denied { reason: "why".to_string() }
    );
    assert_eq!(judge("example.local", PolicyVerdict::PassThrough), ResolveResponse::PassThrough);
    assert_eq!(judge("a", PolicyVerdict::Allowed), ResolveResponse::PassThrough);
    assert_eq!(
        judge("example.local", PolicyVerdict::Allowed),
        ResolveResponse::Resolved { addresses: vec![ten()] }
    );
}

#[test]
fn the_daemon_knows_one_name() {
    assert_eq!(upstream_resolve("example.local"), vec![ten()]);
    assert_eq!(upstream_resolve("example.local."), vec![]);
    assert_eq!(upstream_resolve("Example.local"), vec![]);
    assert_eq!(upstream_resolve(""), vec![]);
}

const SIX: [u8; 16] = [0xfd, 0, 0, 0, 0, 0, 0, 0, 0, 0, 0, 0, 0, 0, 0, 1];

#[test]
fn addresses_are_filtered_by_family() {
    let mixed = [
        IpAddr::V6(SIX),
        IpAddr::V4([1, 1, 1, 1]),
        IpAddr::V4([2, 2, 2, 2]),
    ];
    let four = Addresses::V4(vec![[1, 1, 1, 1], [2, 2, 2, 2]]);
    let six = Addresses::V6(vec![SIX]);
    assert_eq!(filter_addrs(&mixed, AddressFamily::IPv4), Some(four.clone()));
    assert_eq!(filter_addrs(&mixed, AddressFamily::IPv6), Some(six.clone()));
    assert_eq!(filter_addrs(&mixed, AddressFamily::Unspecified), Some(four));
    assert_eq!(filter_addrs(&mixed[..1], AddressFamily::Unspecified), Some(six));
    assert_eq!(filter_addrs(&mixed[..1], AddressFamily::IPv4), None);
    assert_eq!(filter_addrs(&mixed[1..], AddressFamily::IPv6), None);
    assert_eq!(filter_addrs(&[], AddressFamily::Unspecified), None);
}

#[test]
fn responses_become_answers_for_glibc() {
    let family = AddressFamily::IPv4;
    assert_eq!(get_host_by_name("a", family, None), Answer::Unavail);
    assert_eq!(
        get_host_by_name("a", family, Some(ResolveResponse::Denied { reason: String::new() })),
        Answer::NotFound
    );
    assert_eq!(
        get_host_by_name("a", family, Some(ResolveResponse::PassThrough)),
        Answer::Unavail
    );
    let resolved = || Some(ResolveResponse::Resolved { addresses: vec![ten()] });
    assert_eq!(
        get_host_by_name("a", family, resolved()),
        Answer::Success(Host {
            name: "a".to_string(),
            addresses: Addresses::V4(vec![[10, 0, 0, 1]]),
            aliases: vec![],
        })
    );
    assert_eq!(
        get_host_by_name("a", AddressFamily::IPv6, resolved()),
        Answer::NotFound
    );
    assert_eq!(get_all_entries(), Answer::NotFound);
    assert_eq!(get_host_by_addr(&ten()), Answer::NotFound);
}

#[test]
fn the_documented_defaults() {
    assert_eq!(DEFAULT_SOCKET_PATH, "/run/deezns/resolve.sock");
    assert_eq!(MAX_CONNECTIONS, 512);
    assert_eq!(CLIENT_TIMEOUT_MS, 5000);
    assert_eq!(NSCD_TIMEOUT_MS, 5000);
}
