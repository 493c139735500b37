use deezns::cel::{is_documented, CelOutcome};
use deezns::policy::{
    canonical_name, default_passthrough, BlocklistConfig, Caller, DefaultVerdict, PolicyConfig,
    PolicyEngine, PolicySocketConfig, PolicyVerdict, RuleConfig, RuleVerdict,
    DEFAULT_UPSTREAM_TIMEOUT_MS,
};

fn config(default_verdict: DefaultVerdict, rules: &[(&str, &str, RuleVerdict)]) -> PolicyConfig {
    PolicyConfig {
        default_verdict,
        blocklists: vec![],
        rules: rules
            .iter()
            .map(|(note, expr, verdict)| RuleConfig {
                note: note.to_string(),
                expr: expr.to_string(),
                verdict: *verdict,
            })
            .collect(),
        policy_socket: PolicySocketConfig { relay_users: vec![] },
        nscd_frontend: None,
        dns_frontend: None,
    }
}

fn engine(default_verdict: DefaultVerdict, rules: &[(&str, &str, RuleVerdict)]) -> PolicyEngine {
    PolicyEngine::load(&config(default_verdict, rules), &[]).unwrap()
}

fn with_lists(
    rules: &[(&str, &str, RuleVerdict)],
    lists: &[(&str, &str)],
) -> PolicyEngine {
    let mut cfg = config(DefaultVerdict::Passthrough, rules);
    cfg.blocklists = lists
        .iter()
        .map(|(name, _)| BlocklistConfig {
            name: name.to_string(),
            path: String::new(),
        })
        .collect();
    let files: Vec<Vec<u8>> = lists.iter().map(|(_, text)| text.as_bytes().to_vec()).collect();
    PolicyEngine::load(&cfg, &files).unwrap()
}

fn denied(reason: &str) -> PolicyVerdict {
    PolicyVerdict::Denied(reason.to_string())
}

#[test]
fn first_matching_rule_wins() {
    let engine = engine(
        DefaultVerdict::Passthrough,
        &[
            (
                "deny tiktok for uid 1000",
                r#"uid == 1000 && hostname.endsWith(".tiktok.com")"#,
                RuleVerdict::Deny,
            ),
            ("allow everything for uid 1000", "uid == 1000", RuleVerdict::Allow),
        ],
    );

    // tiktok.com hits the first rule → deny
    assert!(matches!(
        engine.evaluate("www.tiktok.com", 1000, 1000, 42),
        PolicyVerdict::Denied(_)
    ));

    // github.com skips rule 1, hits rule 2 → allow
    assert_eq!(
        engine.evaluate("github.com", 1000, 1000, 42),
        PolicyVerdict::Allowed,
    );
}

#[test]
fn default_deny_catches_unmatched() {
    let engine = engine(
        DefaultVerdict::Deny,
        &[("only root", "uid == 0", RuleVerdict::Allow)],
    );

    assert_eq!(
        engine.evaluate("anything.com", 0, 0, 1),
        PolicyVerdict::Allowed,
    );
    assert!(matches!(
        engine.evaluate("anything.com", 1000, 1000, 99),
        PolicyVerdict::Denied(_)
    ));
}

#[test]
fn default_passthrough_falls_through() {
    let engine = engine(default_passthrough(), &[]);

    assert_eq!(
        engine.evaluate("example.com", 1000, 1000, 1),
        PolicyVerdict::PassThrough,
    );
}

#[test]
fn cel_string_methods_work() {
    let engine = engine(
        DefaultVerdict::Passthrough,
        &[
            (
                "block .local",
                r#"hostname.endsWith(".local") || hostname == "local""#,
                RuleVerdict::Deny,
            ),
            (
                "block internal prefix",
                r#"hostname.startsWith("internal-")"#,
                RuleVerdict::Deny,
            ),
            (
                "block anything with 'tracking'",
                r#"hostname.contains("tracking")"#,
                RuleVerdict::Deny,
            ),
        ],
    );

    assert!(matches!(
        engine.evaluate("foo.local", 0, 0, 1),
        PolicyVerdict::Denied(_)
    ));
    assert!(matches!(
        engine.evaluate("internal-api.corp.com", 0, 0, 1),
        PolicyVerdict::Denied(_)
    ));
    assert!(matches!(
        engine.evaluate("user-tracking.example.com", 0, 0, 1),
        PolicyVerdict::Denied(_)
    ));
    assert_eq!(
        engine.evaluate("safe.example.com", 0, 0, 1),
        PolicyVerdict::PassThrough,
    );
}

#[test]
fn regular_expressions_work() {
    let engine = engine(
        DefaultVerdict::Passthrough,
        &[("ads", r#"hostname.matches("^ads?[0-9]*[.]")"#, RuleVerdict::Deny)],
    );
    assert_eq!(engine.evaluate("ad7.test", 0, 0, 1), denied("matched rule: ads"));
    assert_eq!(engine.evaluate("bad.test", 0, 0, 1), PolicyVerdict::PassThrough);
}

#[test]
fn denials_say_why() {
    let e = engine(
        DefaultVerdict::Deny,
        &[
            ("no ads", r#"hostname == "ads.test""#, RuleVerdict::Deny),
            ("skip", r#"hostname == "skip.test""#, RuleVerdict::Passthrough),
        ],
    );
    assert_eq!(e.evaluate("ads.test", 0, 0, 1), denied("matched rule: no ads"));
    assert_eq!(e.evaluate("skip.test", 0, 0, 1), PolicyVerdict::PassThrough);
    assert_eq!(
        e.evaluate("Other.Test.", 0, 0, 1),
        denied("other.test denied by default policy")
    );
}

#[test]
fn rules_see_the_callers_credentials() {
    let e = engine(
        DefaultVerdict::Passthrough,
        &[(
            "one process",
            "uid == 4294967295 && gid == 7 && pid == -5",
            RuleVerdict::Allow,
        )],
    );
    assert_eq!(e.evaluate("a.test", 4294967295, 7, -5), PolicyVerdict::Allowed);
    assert_eq!(e.evaluate("a.test", 4294967294, 7, -5), PolicyVerdict::PassThrough);
    assert_eq!(e.evaluate("a.test", 4294967295, 8, -5), PolicyVerdict::PassThrough);
    assert_eq!(e.evaluate("a.test", 4294967295, 7, -4), PolicyVerdict::PassThrough);
}

#[test]
fn unknown_credentials_are_minus_one() {
    let e = engine(
        DefaultVerdict::Passthrough,
        &[("unknown", "uid == -1 && gid == -1 && pid == -1", RuleVerdict::Deny)],
    );
    assert_eq!(
        e.evaluate_for("a.test", &Caller::unknown()),
        denied("matched rule: unknown")
    );
    assert_eq!(
        e.evaluate_for("a.test", &Caller::new(1, 1, 1)),
        PolicyVerdict::PassThrough
    );
    let caller = Caller { uid: Some(5), gid: None, pid: None };
    assert_eq!(caller.uid_value(), 5);
    assert_eq!(caller.gid_value(), -1);
    assert_eq!(caller.pid_value(), -1);
    assert_eq!(Caller::new(1, 2, 3).gid_value(), 2);
    assert_eq!(Caller::new(1, 2, 3).pid_value(), 3);
    assert_eq!(Caller::unknown().uid_value(), -1);
}

#[test]
fn case_and_trailing_dots_are_one_name() {
    let e = with_lists(
        &[
            ("rule", r#"hostname == "blocked.test""#, RuleVerdict::Deny),
            ("list", r#"blocked_by("ads")"#, RuleVerdict::Deny),
        ],
        &[("ads", "||ads.test^\n")],
    );
    for name in ["blocked.test", "Blocked.Test.", "BLOCKED.TEST", "blocked.test.."] {
        assert_eq!(e.evaluate(name, 0, 0, 1), denied("matched rule: rule"));
    }
    for name in ["ads.test", "x.Ads.Test.", "ADS.test"] {
        assert_eq!(e.evaluate(name, 0, 0, 1), denied("matched rule: list"));
    }
    assert_eq!(canonical_name("Blocked.Test."), "blocked.test");
    assert_eq!(canonical_name("blocked.test"), "blocked.test");
    assert_eq!(canonical_name(&canonical_name("A..")), canonical_name("A.."));
}

#[test]
fn the_root_is_a_dot() {
    let e = engine(
        DefaultVerdict::Passthrough,
        &[("root", r#"hostname == ".""#, RuleVerdict::Deny)],
    );
    assert_eq!(e.evaluate("", 0, 0, 1), denied("matched rule: root"));
    assert_eq!(e.evaluate(".", 0, 0, 1), denied("matched rule: root"));
    assert_eq!(e.evaluate("a", 0, 0, 1), PolicyVerdict::PassThrough);
    assert_eq!(canonical_name(""), ".");
}

#[test]
fn blocklists_are_asked_by_name() {
    let e = with_lists(
        &[
            ("one", r#"blocked_by("one")"#, RuleVerdict::Deny),
            ("none", r#"blocked_by("none")"#, RuleVerdict::Deny),
            ("two", r#"blocked_by("two") && uid == 1"#, RuleVerdict::Allow),
        ],
        &[("one", "a.test\n"), ("two", "||b.test^\n")],
    );
    assert_eq!(e.evaluate("a.test", 1, 0, 1), denied("matched rule: one"));
    assert_eq!(e.evaluate("x.b.test", 1, 0, 1), PolicyVerdict::Allowed);
    assert_eq!(e.evaluate("x.b.test", 2, 0, 1), PolicyVerdict::PassThrough);
    assert_eq!(e.evaluate("x.a.test", 1, 0, 1), PolicyVerdict::PassThrough);
}

#[test]
fn the_last_list_of_a_name_counts() {
    let rules = [("list", r#"blocked_by("ads")"#, RuleVerdict::Deny)];
    let e = with_lists(&rules, &[("ads", "a.test\n"), ("x", "c.test\n"), ("ads", "b.test\n")]);
    assert_eq!(e.evaluate("a.test", 0, 0, 1), PolicyVerdict::PassThrough);
    assert_eq!(e.evaluate("b.test", 0, 0, 1), denied("matched rule: list"));
    assert_eq!(e.evaluate("c.test", 0, 0, 1), PolicyVerdict::PassThrough);
}

#[test]
fn a_rule_that_fails_or_yields_no_truth_value_is_skipped() {
    let e = engine(
        DefaultVerdict::Passthrough,
        &[
            ("undeclared", "nobody == 1", RuleVerdict::Deny),
            ("a number", "uid", RuleVerdict::Deny),
            ("wrong type", "blocked_by(1)", RuleVerdict::Deny),
            ("false", "false", RuleVerdict::Deny),
            ("true", "true", RuleVerdict::Allow),
            ("too late", "true", RuleVerdict::Deny),
        ],
    );
    assert_eq!(e.evaluate("a.test", 1, 1, 1), PolicyVerdict::Allowed);
}

#[test]
fn outcomes_decide_in_order() {
    let e = engine(
        DefaultVerdict::Deny,
        &[
            ("first", "true", RuleVerdict::Passthrough),
            ("second", "true", RuleVerdict::Deny),
            ("third", "true", RuleVerdict::Allow),
        ],
    );
    let yes = CelOutcome::Bool(true);
    let no = CelOutcome::Bool(false);
    assert_eq!(e.decide("A.", &[yes, yes, yes]), PolicyVerdict::PassThrough);
    assert_eq!(e.decide("A.", &[no, yes, yes]), denied("matched rule: second"));
    assert_eq!(e.decide("A.", &[no, CelOutcome::Error, yes]), PolicyVerdict::Allowed);
    assert_eq!(
        e.decide("A.", &[CelOutcome::Other, no, CelOutcome::Error]),
        denied("a denied by default policy")
    );
    assert_eq!(e.decide("A.", &[]), denied("a denied by default policy"));
    assert_eq!(e.decide("A.", &[no, no, no, yes]), denied("a denied by default policy"));
}

#[test]
fn the_first_rule_that_does_not_compile_is_the_error() {
    let cfg = config(
        DefaultVerdict::Passthrough,
        &[
            ("fine", "true", RuleVerdict::Allow),
            ("broken", "uid == ", RuleVerdict::Allow),
            ("broken too", "((", RuleVerdict::Allow),
        ],
    );
    match PolicyEngine::load(&cfg, &[]) {
        Ok(_) => panic!("the policy does not compile"),
        Err(e) => {
            assert_eq!(e.index, 1);
            assert_eq!(e.note, "broken");
            assert!(!e.message.is_empty());
        }
    }
}

#[test]
fn the_documented_language_is_recognised() {
    for expr in [
        "",
        "true",
        "uid == 0",
        "gid == -1",
        r#"blocked_by("stevenblack") || blocked_by('oisd')"#,
        "uid == 1000 && (\n    hostname == \"github.com\" ||\n    hostname.endsWith(\".github.com\")\n  )",
        r#"!hostname.matches("^a[0-9]+\.test$")"#.replace('\\', "[").as_str(),
        r#"hostname == """#,
        "pid < 123456789012345678",
    ] {
        assert!(is_documented(expr), "{expr}");
    }
    for expr in [
        "Foo{}",
        "hostname.size() > 3",
        "[1, 2].all(x, x > 0)",
        "b'x'.contains(b'')",
        "uid + 1 == 2",
        "-uid == 1",
        "- 1 == uid",
        "uid == 1234567890123456789",
        "uid == 1u",
        "uid == 0x10",
        r#"hostname == "a\n""#,
        r#"hostname == """a""""#,
        "hostname == 'a",
        "hostname == \"a\nb\"",
        "timestamp('x') == uid",
        "uid == 1 ? true : false",
        "{}",
        "é",
    ] {
        assert!(!is_documented(expr), "{expr}");
    }
}

#[test]
fn checked_evaluation_needs_documented_rules() {
    let caller = Caller::new(0, 0, 1);
    let good = engine(DefaultVerdict::Deny, &[("root", "uid == 0", RuleVerdict::Allow)]);
    assert!(good.is_documented());
    assert_eq!(good.evaluate_for_checked("a.test", &caller), Some(PolicyVerdict::Allowed));
    let other = engine(
        DefaultVerdict::Deny,
        &[
            ("root", "uid == 0", RuleVerdict::Allow),
            ("long", "size(hostname) > 30", RuleVerdict::Deny),
        ],
    );
    assert!(!other.is_documented());
    assert_eq!(other.evaluate_for_checked("a.test", &caller), None);
    assert_eq!(other.evaluate_checked("a.test", 0, 0, 1), None);
    assert_eq!(good.evaluate_checked("a.test", 1, 0, 1), Some(denied("a.test denied by default policy")));
    // The rule is fine all the same.
    assert_eq!(other.evaluate("a.test", 0, 0, 1), PolicyVerdict::Allowed);
}

#[test]
fn the_upstream_timeout_is_five_seconds_by_default() {
    assert_eq!(DEFAULT_UPSTREAM_TIMEOUT_MS, 5000);
}

/// Whether a rule with this expression matches.
fn holds(expr: &str, hostname: &str, caller: Caller) -> bool {
    let engine = with_lists(
        &[("it", expr, RuleVerdict::Allow)],
        &[("ads", "||ads.test^\n"), ("other", "other.test\n")],
    );
    assert!(is_documented(expr));
    engine.evaluate_for(hostname, &caller) == PolicyVerdict::Allowed
}

#[test]
fn truth_values_and_logical_operators() {
    let me = Caller::new(1, 2, 3);
    for (expr, expected) in [
        ("true", true),
        ("false", false),
        ("!true", false),
        ("!false", true),
        ("true && true", true),
        ("true && false", false),
        ("false&&true", false),
        ("false || true", true),
        ("false||false", false),
        ("true || false && false", true),
        ("(true || false) && false", false),
        ("false && false || true", true),
        ("false && (false || true)", false),
        ("!(true && false)", true),
        ("!false && false", false),
        ("true && true && false", false),
        ("false || false || true", true),
        ("((true))", true),
        ("\n\t ( true\r\n ) ", true),
        (r#"!blocked_by("ads") && !hostname.endsWith("x")"#, true),
    ] {
        assert_eq!(holds(expr, "a.test", me), expected, "{expr:?}");
    }
}

#[test]
fn numbers_are_compared() {
    let me = Caller::new(1000, 100, 42);
    for (expr, expected) in [
        ("uid == 1000", true),
        ("uid==1000", true),
        ("uid != 1000", false),
        ("uid < 1000", false),
        ("uid <= 1000", true),
        ("uid<=999", false),
        ("uid > 999", true),
        ("uid >= 1001", false),
        ("gid == 100", true),
        ("gid == 1000", false),
        ("pid == 42", true),
        ("pid > -1", true),
        ("pid >-1", true),
        ("pid == -1", false),
        ("uid == 999999999999999999", false),
        ("uid < 999999999999999999 && gid != 0", true),
    ] {
        assert_eq!(holds(expr, "a.test", me), expected, "{expr:?}");
    }
    let nobody = Caller::unknown();
    assert!(holds("uid == -1 && gid == -1 && pid == -1", "a.test", nobody));
    assert!(!holds("uid >= 0", "a.test", nobody));
}

#[test]
fn names_are_searched() {
    let me = Caller::new(1, 2, 3);
    for (expr, expected) in [
        (r#"hostname == "x.ads.test""#, true),
        (r#"hostname != "x.ads.test""#, false),
        (r#"hostname=="ads.test""#, false),
        (r#"hostname.startsWith("x.")"#, true),
        (r#"hostname.startsWith("ads")"#, false),
        (r#"hostname.endsWith(".test")"#, true),
        (r#"hostname.endsWith("x")"#, false),
        (r#"hostname.contains("ads")"#, true),
        (r#"hostname.contains("x.ads.test")"#, true),
        (r#"hostname.contains("")"#, true),
        (r#"hostname.contains("adst")"#, false),
        (r#" hostname . contains ( "ds.t" ) "#, true),
        (r#"blocked_by("ads")"#, true),
        (r#"blocked_by ( "ads" )"#, true),
        (r#"blocked_by("other")"#, false),
        (r#"blocked_by("none")"#, false),
    ] {
        assert_eq!(holds(expr, "X.Ads.Test.", me), expected, "{expr:?}");
    }
}

#[test]
fn the_allow_list_of_the_manual_works() {
    let expr = r#"
  uid == 1000 && (
    hostname == "github.com" ||
    hostname.endsWith(".github.com")
  )
"#;
    let dev = Caller::new(1000, 1000, 42);
    assert!(holds(expr, "github.com", dev));
    assert!(holds(expr, "API.GitHub.com.", dev));
    assert!(!holds(expr, "notgithub.com", dev));
    assert!(!holds(expr, "github.com", Caller::new(1001, 1000, 42)));
    assert!(!holds(expr, "github.com", Caller::unknown()));
}

#[test]
fn one_name_has_one_verdict() {
    let engine = with_lists(
        &[
            ("ads", r#"blocked_by("ads")"#, RuleVerdict::Deny),
            ("pattern", r#"hostname.matches("^a+[.]test$")"#, RuleVerdict::Allow),
        ],
        &[("ads", "||blocked.test^\n")],
    );
    for name in ["blocked.test", "x.blocked.test", "aa.test", "b.test"] {
        let verdict = engine.evaluate(name, 1, 2, 3);
        for other in [name.to_string(), format!("{name}."), name.to_uppercase()] {
            assert_eq!(engine.evaluate(&other, 1, 2, 3), verdict, "{other}");
            assert_eq!(engine.evaluate_checked(&other, 1, 2, 3), Some(verdict.clone()));
        }
    }
}
