//! The policy: ordered rules, each a CEL expression and a verdict, over named
//! blocklists. The first rule that matches decides; when none does, the
//! default verdict applies.
use crate::addr::SocketAddr;
use crate::blocklist;
use crate::blocklist::Blocklist;
use crate::cel;
use crate::cel::{CelOutcome, CelValue, Predicates, TextSet, Variables};
use crate::plain;
use crate::plain::{Facts, Id, Method, Relation, Term};
use crate::text;
use crate::text::{chars_of, string_of, to_lower, without_trailing};
use cel_interpreter::{Context, Program};
use std::sync::Arc;
use vstd::hash_set::StringHashSet;
use vstd::prelude::*;

verus! {

// ---------------------------------------------------------------------------
// Configuration
// ---------------------------------------------------------------------------

/// What happens to a name that no rule matches.
#[derive(Debug, Clone, Copy, PartialEq, Eq, Structural)]
pub enum DefaultVerdict {
    /// No opinion: the next source handles it.
    Passthrough,
    /// Everything that is not explicitly allowed is denied.
    Deny,
}

/// What happens to a name that a rule matches.
#[derive(Debug, Clone, Copy, PartialEq, Eq, Structural)]
pub enum RuleVerdict {
    Allow,
    Deny,
    Passthrough,
}

/// A rule as configured.
#[derive(Debug, Clone)]
pub struct RuleConfig {
    /// A note for people, which a denial gives as its reason.
    pub note: String,
    /// The CEL expression that must yield `true` for the rule to match.
    pub expr: String,
    /// What to do when it matches.
    pub verdict: RuleVerdict,
}

/// A blocklist as configured.
#[derive(Debug, Clone)]
pub struct BlocklistConfig {
    /// The name in `blocked_by("name")`.
    pub name: String,
    /// The path of the list file.
    pub path: String,
}

/// The policy socket.
#[derive(Debug, Clone)]
pub struct PolicySocketConfig {
    /// Users whose lookups are passed through unjudged.
    pub relay_users: Vec<String>,
}

/// The front-end that takes nscd's place.
#[derive(Debug, Clone)]
pub struct NscdFrontendConfig {
    /// The path of the socket to listen on.
    pub listen: String,
    /// The path of the real nscd's socket.
    pub upstream: String,
}

/// The front-end that serves DNS.
#[derive(Debug, Clone)]
pub struct DnsFrontendConfig {
    pub listen: SocketAddr,
    /// The real resolver.
    pub upstream: SocketAddr,
    /// How long the real resolver may take to answer.
    pub upstream_timeout_ms: u64,
    /// Users whose lookups are passed through unjudged.
    pub relay_users: Vec<String>,
}

/// The whole configuration.
#[derive(Debug, Clone)]
pub struct PolicyConfig {
    pub default_verdict: DefaultVerdict,
    pub blocklists: Vec<BlocklistConfig>,
    pub rules: Vec<RuleConfig>,
    pub policy_socket: PolicySocketConfig,
    pub nscd_frontend: Option<NscdFrontendConfig>,
    pub dns_frontend: Option<DnsFrontendConfig>,
}

/// The upstream timeout of a DNS front-end that sets none, in milliseconds.
pub const DEFAULT_UPSTREAM_TIMEOUT_MS: u64 = 5000;

/// The default verdict of a configuration that sets none.
pub fn default_passthrough() -> (r: DefaultVerdict)
    ensures
        r == DefaultVerdict::Passthrough,
{
    DefaultVerdict::Passthrough
}

// ---------------------------------------------------------------------------
// Who asks, and for what
// ---------------------------------------------------------------------------

/// The process that asks, as far as it is known.
#[derive(Debug, Clone, Copy, PartialEq, Eq)]
pub struct Caller {
    pub uid: Option<u32>,
    pub gid: Option<u32>,
    pub pid: Option<i32>,
}

impl Caller {
    /// A caller of whom everything is known.
    pub fn new(uid: u32, gid: u32, pid: i32) -> (r: Caller)
        ensures
            r == (Caller { uid: Some(uid), gid: Some(gid), pid: Some(pid) }),
    {
        Caller { uid: Some(uid), gid: Some(gid), pid: Some(pid) }
    }

    /// A caller of whom nothing is known.
    pub fn unknown() -> (r: Caller)
        ensures
            r == (Caller { uid: None, gid: None, pid: None }),
    {
        Caller { uid: None, gid: None, pid: None }
    }

    /// The uid that rules see: `-1` when it is unknown.
    pub open spec fn rule_uid(self) -> int {
        match self.uid {
            Some(uid) => uid as int,
            None => -1,
        }
    }

    /// The gid that rules see: `-1` when it is unknown.
    pub open spec fn rule_gid(self) -> int {
        match self.gid {
            Some(gid) => gid as int,
            None => -1,
        }
    }

    /// The pid that rules see: `-1` when it is unknown.
    pub open spec fn rule_pid(self) -> int {
        match self.pid {
            Some(pid) => pid as int,
            None => -1,
        }
    }

    /// The uid that rules see.
    pub fn uid_value(&self) -> (r: i64)
        ensures
            r == self.rule_uid(),
    {
        match self.uid {
            Some(uid) => uid as i64,
            None => -1,
        }
    }

    /// The gid that rules see.
    pub fn gid_value(&self) -> (r: i64)
        ensures
            r == self.rule_gid(),
    {
        match self.gid {
            Some(gid) => gid as i64,
            None => -1,
        }
    }

    /// The pid that rules see.
    pub fn pid_value(&self) -> (r: i64)
        ensures
            r == self.rule_pid(),
    {
        match self.pid {
            Some(pid) => pid as i64,
            None => -1,
        }
    }
}

/// A name without its trailing dots.
pub open spec fn undotted(name: Seq<char>) -> Seq<char> {
    text::trim_end_of(name, |c: char| seq!['.'].contains(c))
}

/// The form of a name that rules and blocklists see: lower-case, without
/// trailing dots, and `.` for the DNS root.
pub open spec fn canonical(name: Seq<char>) -> Seq<char> {
    if undotted(text::lower(name)).len() == 0 {
        seq!['.']
    } else {
        undotted(text::lower(name))
    }
}

/// The canonical form of a name.
pub fn canonical_name(name: &str) -> (r: String)
    ensures
        r@ == canonical(name@),
{
    let chars = to_lower(&chars_of(name));
    let dots: [char; 1] = ['.'];
    let drop: &[char] = &dots;
    assert(drop@ =~= seq!['.']);
    let name = without_trailing(&chars, drop);
    if name.len() == 0 {
        let mut r = String::new();
        r.push('.');
        assert(r@ =~= seq!['.']);
        r
    } else {
        string_of(name)
    }
}

// ---------------------------------------------------------------------------
// Verdicts
// ---------------------------------------------------------------------------

/// The outcome of a policy evaluation.
#[derive(Debug, Clone, PartialEq, Eq)]
pub enum PolicyVerdict {
    /// Denied, and why.
    Denied(String),
    PassThrough,
    Allowed,
}

/// A verdict, with the reason as a sequence of characters.
pub enum Verdict {
    Denied(Seq<char>),
    PassThrough,
    Allowed,
}

impl View for PolicyVerdict {
    type V = Verdict;

    open spec fn view(&self) -> Verdict {
        match self {
            PolicyVerdict::Denied(reason) => Verdict::Denied(reason@),
            PolicyVerdict::PassThrough => Verdict::PassThrough,
            PolicyVerdict::Allowed => Verdict::Allowed,
        }
    }
}

/// A rule: its expression, its note and its verdict.
pub struct Rule {
    pub expr: Seq<char>,
    pub note: Seq<char>,
    pub verdict: RuleVerdict,
}

/// What a matching rule decides.
pub open spec fn rule_decision(rule: Rule) -> Verdict {
    match rule.verdict {
        RuleVerdict::Allow => Verdict::Allowed,
        RuleVerdict::Deny => Verdict::Denied("matched rule: "@ + rule.note),
        RuleVerdict::Passthrough => Verdict::PassThrough,
    }
}

/// What is decided of a host when no rule matches.
pub open spec fn default_decision(default_verdict: DefaultVerdict, host: Seq<char>) -> Verdict {
    match default_verdict {
        DefaultVerdict::Passthrough => Verdict::PassThrough,
        DefaultVerdict::Deny => Verdict::Denied(host + " denied by default policy"@),
    }
}

/// Whether an outcome makes its rule match: only the truth value `true` does.
pub open spec fn matching(outcome: CelOutcome) -> bool {
    outcome == CelOutcome::Bool(true)
}

/// The index of the first outcome that matches, or the number of outcomes.
pub open spec fn first_match(outcomes: Seq<CelOutcome>) -> int
    decreases outcomes.len(),
{
    if outcomes.len() == 0 || matching(outcomes[0]) {
        0
    } else {
        1 + first_match(outcomes.skip(1))
    }
}

/// What is decided of a host when the rules, in order, have these outcomes:
/// the first match decides, and the default where there is none.
pub open spec fn decision(
    rules: Seq<Rule>,
    default_verdict: DefaultVerdict,
    host: Seq<char>,
    outcomes: Seq<CelOutcome>,
) -> Verdict {
    let i = first_match(outcomes);
    if i < outcomes.len() && i < rules.len() {
        rule_decision(rules[i])
    } else {
        default_decision(default_verdict, host)
    }
}

proof fn lemma_first_match(outcomes: Seq<CelOutcome>, n: int)
    requires
        0 <= n <= outcomes.len(),
        forall|i: int| 0 <= i < n ==> !matching(#[trigger] outcomes[i]),
        n < outcomes.len() ==> matching(outcomes[n]),
    ensures
        first_match(outcomes) == n,
    decreases n,
{
    if n > 0 {
        assert(!matching(outcomes[0]));
        let rest = outcomes.skip(1);
        assert forall|i: int| 0 <= i < n - 1 implies !matching(#[trigger] rest[i]) by {
            assert(!matching(outcomes[i + 1]));
        }
        lemma_first_match(rest, n - 1);
    }
}

// ---------------------------------------------------------------------------
// What the rules see
// ---------------------------------------------------------------------------

/// The variables of a rule.
pub open spec fn rule_variables(host: Seq<char>, caller: Caller) -> Variables {
    Variables::empty().insert("hostname"@, CelValue::Text(host)).insert(
        "uid"@,
        CelValue::Int(caller.rule_uid()),
    ).insert("gid"@, CelValue::Int(caller.rule_gid())).insert(
        "pid"@,
        CelValue::Int(caller.rule_pid()),
    )
}

/// Whether the list at `i` is the one that a name refers to: the last one of
/// that name.
pub open spec fn list_named(lists: Seq<Blocklist>, name: Seq<char>, i: int) -> bool {
    &&& 0 <= i < lists.len()
    &&& lists[i].title() == name
    &&& forall|j: int| i < j < lists.len() ==> (#[trigger] lists[j]).title() != name
}

/// The names of the lists that block a host.
pub open spec fn blocking(lists: Seq<Blocklist>, host: Seq<char>) -> Set<Seq<char>> {
    Set::new(
        |name: Seq<char>|
            exists|i: int| #[trigger] list_named(lists, name, i) && lists[i].blocks(host),
    )
}

/// The functions of a rule: `blocked_by`, which holds of the lists that block
/// the host.
pub open spec fn rule_predicates(lists: Seq<Blocklist>, host: Seq<char>) -> Predicates {
    Predicates::empty().insert("blocked_by"@, blocking(lists, host))
}

/// What a plain rule can ask about: the canonical name, the caller's numbers
/// and the names of the lists that block the host.
pub open spec fn rule_facts(lists: Seq<Blocklist>, host: Seq<char>, caller: Caller) -> Facts {
    Facts {
        host,
        uid: caller.rule_uid(),
        gid: caller.rule_gid(),
        pid: caller.rule_pid(),
        blocked: blocking(lists, host),
    }
}

// ---------------------------------------------------------------------------
// The engine
// ---------------------------------------------------------------------------

/// A rule with its expression compiled.
struct CompiledRule {
    expr: String,
    note: String,
    program: Program,
    verdict: RuleVerdict,
}

impl CompiledRule {
    #[verifier::type_invariant]
    spec fn compiled(&self) -> bool {
        cel::compiles_to(self.expr@, self.program)
    }

    spec fn rule(self) -> Rule {
        Rule { expr: self.expr@, note: self.note@, verdict: self.verdict }
    }
}

/// A rule whose expression does not compile.
#[derive(Debug, Clone, PartialEq, Eq)]
pub struct RuleError {
    /// The position of the rule.
    pub index: usize,
    /// Its note.
    pub note: String,
    /// What is wrong with it.
    pub message: String,
}

/// A configured rule as the engine sees it.
pub open spec fn configured_rule(rule: RuleConfig) -> Rule {
    Rule { expr: rule.expr@, note: rule.note@, verdict: rule.verdict }
}

/// Whether the expression of a configured rule compiles.
pub open spec fn rule_compiles(rule: RuleConfig) -> bool {
    cel::compiled(rule.expr@) matches Some(Ok(_))
}

/// Whether a configured rule is a plain expression.
pub open spec fn rule_is_plain(rule: RuleConfig) -> bool {
    exists|t: Term| #[trigger] plain::written(rule.expr@, t)
}

/// Whether this is what loading a configuration with these list files comes
/// to: a policy with its rules, lists and default, or, if there is one, the
/// first rule that does not compile. A plain rule always does.
pub open spec fn loads(
    config: PolicyConfig,
    files: Seq<Vec<u8>>,
    r: Result<PolicyEngine, RuleError>,
) -> bool {
    match r {
        Ok(engine) => {
            &&& forall|i: int| 0 <= i < config.rules@.len() ==> rule_compiles(#[trigger] config.rules@[i])
            &&& engine.fallback() == config.default_verdict
            &&& engine.rules() == config.rules@.map_values(
                |rule: RuleConfig| configured_rule(rule),
            )
            &&& engine.lists().len() == files.len()
            &&& forall|i: int|
                0 <= i < files.len() ==> {
                    &&& (#[trigger] engine.lists()[i]).title() == config.blocklists@[i].name@
                    &&& engine.lists()[i].exact() == blocklist::exact_entries(files[i]@)
                    &&& engine.lists()[i].suffixes() == blocklist::suffix_entries(files[i]@)
                }
        },
        Err(e) => {
            &&& e.index < config.rules@.len()
            &&& e.note@ == config.rules@[e.index as int].note@
            &&& cel::fails_with(config.rules@[e.index as int].expr@, e.message@)
            &&& !rule_is_plain(config.rules@[e.index as int])
            &&& forall|i: int| 0 <= i < e.index ==> rule_compiles(#[trigger] config.rules@[i])
        },
    }
}

/// A loaded policy: the compiled rules, the blocklists and the default.
pub struct PolicyEngine {
    rules: Vec<CompiledRule>,
    blocklists: Vec<Blocklist>,
    default_verdict: DefaultVerdict,
}

impl PolicyEngine {
    /// The rules, in order.
    pub closed spec fn rules(&self) -> Seq<Rule> {
        Seq::new(self.rules@.len(), |i: int| self.rules@[i].rule())
    }

    /// The blocklists, in order.
    pub closed spec fn lists(&self) -> Seq<Blocklist> {
        self.blocklists@
    }

    /// The default verdict.
    pub closed spec fn fallback(&self) -> DefaultVerdict {
        self.default_verdict
    }

    /// Whether the rule at `i` may have this outcome for a canonical host and
    /// a caller.
    pub open spec fn rule_may_yield(
        &self,
        host: Seq<char>,
        caller: Caller,
        i: int,
        outcome: CelOutcome,
    ) -> bool {
        cel::may_yield(
            self.rules()[i].expr,
            rule_variables(host, caller),
            rule_predicates(self.lists(), host),
            outcome,
        )
    }

    /// Whether evaluating the rule at `i` does not panic.
    pub open spec fn rule_returns(&self, host: Seq<char>, caller: Caller, i: int) -> bool {
        cel::evaluation_returns(
            self.rules()[i].expr,
            rule_variables(host, caller),
            rule_predicates(self.lists(), host),
        )
    }

    /// Whether the rule at `i` may have an outcome that does not match.
    pub open spec fn rule_may_miss(&self, host: Seq<char>, caller: Caller, i: int) -> bool {
        exists|outcome: CelOutcome|
            !matching(outcome) && #[trigger] self.rule_may_yield(host, caller, i, outcome)
    }

    /// Whether evaluating the policy does not panic for this name and caller:
    /// no rule does that can be reached because the rules before it may miss.
    pub open spec fn returns_for(&self, hostname: Seq<char>, caller: Caller) -> bool {
        let host = canonical(hostname);
        forall|i: int|
            0 <= i < self.rules().len() && (forall|j: int|
                0 <= j < i ==> #[trigger] self.rule_may_miss(host, caller, j))
                ==> #[trigger] self.rule_returns(host, caller, i)
    }

    /// Whether the rules, tried in order up to the first match, may have
    /// these outcomes.
    pub open spec fn may_run(
        &self,
        host: Seq<char>,
        caller: Caller,
        outcomes: Seq<CelOutcome>,
    ) -> bool {
        &&& outcomes.len() <= self.rules().len()
        &&& forall|i: int|
            0 <= i < outcomes.len() ==> self.rule_may_yield(
                host,
                caller,
                i,
                #[trigger] outcomes[i],
            )
        &&& outcomes.len() < self.rules().len() ==> outcomes.len() > 0 && matching(outcomes.last())
    }

    /// Whether the policy may come to this verdict on a name for a caller.
    pub open spec fn may_decide(
        &self,
        hostname: Seq<char>,
        caller: Caller,
        verdict: Verdict,
    ) -> bool {
        let host = canonical(hostname);
        exists|outcomes: Seq<CelOutcome>| #[trigger]
            self.may_run(host, caller, outcomes) && verdict == decision(
                self.rules(),
                self.fallback(),
                host,
                outcomes,
            )
    }

    /// Whether each rule has at most one outcome for a canonical host and a
    /// caller.
    pub open spec fn definite(&self, host: Seq<char>, caller: Caller) -> bool {
        forall|i: int, a: CelOutcome, b: CelOutcome|
            0 <= i < self.rules().len() && #[trigger] self.rule_may_yield(host, caller, i, a)
                && #[trigger] self.rule_may_yield(host, caller, i, b) ==> a == b
    }

    /// Whether every rule keeps to the documented part of the expression
    /// language, so that evaluation never panics.
    pub open spec fn all_documented(&self) -> bool {
        forall|i: int| 0 <= i < self.rules().len() ==> cel::documented(#[trigger] self.rules()[i].expr)
    }

    /// Loads a policy: reads the blocklists from the contents of their files,
    /// in the order of the configuration, and compiles the rules. Fails on
    /// the first rule whose expression does not compile.
    pub fn load(config: &PolicyConfig, files: &[Vec<u8>]) -> (r: Result<PolicyEngine, RuleError>)
        requires
            files@.len() == config.blocklists@.len(),
            forall|i: int|
                0 <= i < config.rules@.len() ==> cel::compile_returns(
                    (#[trigger] config.rules@[i]).expr@,
                ),
        ensures
            loads(*config, files@, r),
    {
        let mut blocklists: Vec<Blocklist> = Vec::new();
        for i in 0..files.len()
            invariant
                files@.len() == config.blocklists@.len(),
                blocklists@.len() == i,
                forall|j: int|
                    0 <= j < i ==> {
                        &&& (#[trigger] blocklists@[j]).title() == config.blocklists@[j].name@
                        &&& blocklists@[j].exact() == blocklist::exact_entries(files@[j]@)
                        &&& blocklists@[j].suffixes() == blocklist::suffix_entries(files@[j]@)
                    },
        {
            blocklists.push(Blocklist::parse(&files[i], config.blocklists[i].name.clone()));
        }
        let mut rules: Vec<CompiledRule> = Vec::new();
        for i in 0..config.rules.len()
            invariant
                forall|j: int|
                    0 <= j < config.rules@.len() ==> cel::compile_returns(
                        (#[trigger] config.rules@[j]).expr@,
                    ),
                rules@.len() == i,
                forall|j: int|
                    0 <= j < i ==> #[trigger] rules@[j].rule() == configured_rule(config.rules@[j]),
                forall|j: int| 0 <= j < i ==> rule_compiles(#[trigger] config.rules@[j]),
        {
            let rule = &config.rules[i];
            match cel::compile(rule.expr.as_str()) {
                Ok(program) => {
                    rules.push(
                        CompiledRule {
                            expr: rule.expr.clone(),
                            note: rule.note.clone(),
                            program,
                            verdict: rule.verdict,
                        },
                    );
                },
                Err(message) => {
                    return Err(RuleError { index: i, note: rule.note.clone(), message });
                },
            }
        }
        let engine = PolicyEngine { rules, blocklists, default_verdict: config.default_verdict };
        assert(engine.rules() =~= config.rules@.map_values(
            |rule: RuleConfig| configured_rule(rule),
        ));
        Ok(engine)
    }

    /// Loads a policy as [`PolicyEngine::load`] does, if every rule keeps to
    /// the documented part of the expression language.
    pub fn load_checked(config: &PolicyConfig, files: &[Vec<u8>]) -> (r: Option<
        Result<PolicyEngine, RuleError>,
    >)
        requires
            files@.len() == config.blocklists@.len(),
        ensures
            r is Some <==> forall|i: int|
                0 <= i < config.rules@.len() ==> cel::documented((#[trigger] config.rules@[i]).expr@),
            r matches Some(result) ==> loads(*config, files@, result),
    {
        for i in 0..config.rules.len()
            invariant
                forall|j: int|
                    0 <= j < i ==> cel::documented((#[trigger] config.rules@[j]).expr@),
        {
            if !cel::is_documented(config.rules[i].expr.as_str()) {
                return None;
            }
        }
        Some(Self::load(config, files))
    }

    /// The names of the lists that block a host.
    fn lists_blocking(&self, host: &str) -> (r: TextSet)
        ensures
            r.texts@ == blocking(self.lists(), host@),
    {
        let mut texts = StringHashSet::new();
        assert(texts@ =~= blocking(self.lists().take(0), host@));
        for i in 0..self.blocklists.len()
            invariant
                texts@ == blocking(self.lists().take(i as int), host@),
        {
            let list = &self.blocklists[i];
            proof {
                lemma_blocking_step(self.lists(), host@, i as int);
            }
            if list.contains(host) {
                texts.insert(list.label().to_owned());
            } else {
                texts.remove(list.label());
            }
        }
        assert(self.lists().take(self.lists().len() as int) =~= self.lists());
        TextSet { texts }
    }

    /// The context of a rule for a canonical host and a caller.
    fn rule_context(&self, host: &str, caller: &Caller) -> (ctx: Context<'static>)
        ensures
            cel::context_variables(ctx) == rule_variables(host@, *caller),
            cel::context_predicates(ctx) == Some(rule_predicates(self.lists(), host@)),
    {
        let mut ctx = cel::new_context();
        cel::add_text(&mut ctx, "hostname", host.to_owned());
        cel::add_int(&mut ctx, "uid", caller.uid_value());
        cel::add_int(&mut ctx, "gid", caller.gid_value());
        cel::add_int(&mut ctx, "pid", caller.pid_value());
        cel::add_predicate(&mut ctx, "blocked_by", Arc::new(self.lists_blocking(host)));
        ctx
    }

    /// What is decided of a name when the rules, in order, have these
    /// outcomes.
    pub fn decide(&self, hostname: &str, outcomes: &[CelOutcome]) -> (r: PolicyVerdict)
        ensures
            r@ == decision(self.rules(), self.fallback(), canonical(hostname@), outcomes@),
    {
        let mut i: usize = 0;
        while i < outcomes.len() && !(outcomes[i] == CelOutcome::Bool(true))
            invariant
                i <= outcomes@.len(),
                forall|j: int| 0 <= j < i ==> !matching(#[trigger] outcomes@[j]),
            decreases outcomes@.len() - i,
        {
            i += 1;
        }
        proof {
            lemma_first_match(outcomes@, i as int);
        }
        if i < outcomes.len() && i < self.rules.len() {
            let rule = &self.rules[i];
            assert(self.rules()[i as int] == rule.rule());
            match rule.verdict {
                RuleVerdict::Allow => PolicyVerdict::Allowed,
                RuleVerdict::Deny => {
                    let mut reason = String::new();
                    reason.append("matched rule: ");
                    reason.append(rule.note.as_str());
                    assert(reason@ =~= "matched rule: "@ + rule.note@);
                    PolicyVerdict::Denied(reason)
                },
                RuleVerdict::Passthrough => PolicyVerdict::PassThrough,
            }
        } else {
            match self.default_verdict {
                DefaultVerdict::Passthrough => PolicyVerdict::PassThrough,
                DefaultVerdict::Deny => {
                    let mut reason = canonical_name(hostname);
                    reason.append(" denied by default policy");
                    PolicyVerdict::Denied(reason)
                },
            }
        }
    }

    /// Evaluates the policy for a name and a caller: the rules are tried in
    /// order up to the first match.
    pub fn evaluate_for(&self, hostname: &str, caller: &Caller) -> (r: PolicyVerdict)
        requires
            self.returns_for(hostname@, *caller),
        ensures
            self.may_decide(hostname@, *caller, r@),
    {
        let host = canonical_name(hostname);
        let ctx = self.rule_context(host.as_str(), caller);
        let mut outcomes: Vec<CelOutcome> = Vec::new();
        let mut i: usize = 0;
        let mut matched = false;
        while i < self.rules.len() && !matched
            invariant
                self.returns_for(hostname@, *caller),
                host@ == canonical(hostname@),
                cel::context_variables(ctx) == rule_variables(host@, *caller),
                cel::context_predicates(ctx) == Some(rule_predicates(self.lists(), host@)),
                i <= self.rules@.len(),
                outcomes@.len() == i,
                forall|j: int|
                    0 <= j < i ==> self.rule_may_yield(
                        host@,
                        *caller,
                        j,
                        #[trigger] outcomes@[j],
                    ),
                forall|j: int| 0 <= j < i - 1 ==> !matching(#[trigger] outcomes@[j]),
                matched ==> i > 0 && matching(outcomes@[i - 1]),
                !matched && i > 0 ==> !matching(outcomes@[i - 1]),
            decreases self.rules@.len() - i,
        {
            let rule = &self.rules[i];
            proof {
                use_type_invariant(rule);
                assert(self.rules()[i as int] == rule.rule());
                assert forall|j: int| 0 <= j < i implies #[trigger] self.rule_may_miss(
                    host@,
                    *caller,
                    j,
                ) by {
                    assert(self.rule_may_yield(host@, *caller, j, outcomes@[j]));
                }
                assert(self.rule_returns(host@, *caller, i as int));
            }
            let outcome = cel::execute(&rule.program, &ctx);
            matched = outcome == CelOutcome::Bool(true);
            assert(self.rule_may_yield(host@, *caller, i as int, outcome));
            outcomes.push(outcome);
            i += 1;
        }
        assert(self.may_run(canonical(hostname@), *caller, outcomes@));
        self.decide(hostname, &outcomes)
    }

    /// Evaluates the policy for a name and the credentials of a caller.
    pub fn evaluate(&self, hostname: &str, uid: u32, gid: u32, pid: i32) -> (r: PolicyVerdict)
        requires
            self.returns_for(
                hostname@,
                (Caller { uid: Some(uid), gid: Some(gid), pid: Some(pid) }),
            ),
        ensures
            self.may_decide(
                hostname@,
                (Caller { uid: Some(uid), gid: Some(gid), pid: Some(pid) }),
                r@,
            ),
    {
        self.evaluate_for(hostname, &Caller::new(uid, gid, pid))
    }

    /// Evaluates the policy for a name and the credentials of a caller, if
    /// every rule keeps to the documented part of the expression language.
    pub fn evaluate_checked(&self, hostname: &str, uid: u32, gid: u32, pid: i32) -> (r: Option<
        PolicyVerdict,
    >)
        ensures
            r is Some <==> self.all_documented(),
            r matches Some(verdict) ==> self.may_decide(
                hostname@,
                (Caller { uid: Some(uid), gid: Some(gid), pid: Some(pid) }),
                verdict@,
            ),
    {
        if self.is_documented() {
            Some(self.evaluate(hostname, uid, gid, pid))
        } else {
            None
        }
    }

    /// Whether every rule keeps to the documented part of the expression
    /// language.
    pub fn is_documented(&self) -> (r: bool)
        ensures
            r == self.all_documented(),
            r ==> forall|hostname: Seq<char>, caller: Caller| #[trigger]
                self.returns_for(hostname, caller),
    {
        for i in 0..self.rules.len()
            invariant
                forall|j: int| 0 <= j < i ==> cel::documented(#[trigger] self.rules()[j].expr),
        {
            let rule = &self.rules[i];
            assert(self.rules()[i as int] == rule.rule());
            if !cel::is_documented(rule.expr.as_str()) {
                assert(!cel::documented(self.rules()[i as int].expr));
                return false;
            }
        }
        true
    }

    /// Evaluates the policy for a name and a caller, if every rule keeps to
    /// the documented part of the expression language.
    pub fn evaluate_for_checked(&self, hostname: &str, caller: &Caller) -> (r: Option<
        PolicyVerdict,
    >)
        ensures
            r is Some <==> self.all_documented(),
            r matches Some(verdict) ==> self.may_decide(hostname@, *caller, verdict@),
    {
        if self.is_documented() {
            Some(self.evaluate_for(hostname, caller))
        } else {
            None
        }
    }
}

/// One more list: its name blocks the host if the list does, and no longer
/// does if not, whatever earlier lists of that name say.
proof fn lemma_blocking_step(lists: Seq<Blocklist>, host: Seq<char>, i: int)
    requires
        0 <= i < lists.len(),
    ensures
        blocking(lists.take(i + 1), host) == if lists[i].blocks(host) {
            blocking(lists.take(i), host).insert(lists[i].title())
        } else {
            blocking(lists.take(i), host).remove(lists[i].title())
        },
{
    let before = lists.take(i);
    let after = lists.take(i + 1);
    let title = lists[i].title();
    assert(list_named(after, title, i));
    assert forall|name: Seq<char>, k: int| #[trigger]
        list_named(after, name, k) <==> (k == i && name == title) || (name != title && list_named(
            before,
            name,
            k,
        )) by {
        if list_named(after, name, k) && k < i {
            assert(after[i].title() != name);
            assert forall|j: int| k < j < before.len() implies (#[trigger] before[j]).title()
                != name by {
                assert(after[j].title() != name);
            }
            assert(list_named(before, name, k));
        }
        if name != title && list_named(before, name, k) {
            assert forall|j: int| k < j < after.len() implies (#[trigger] after[j]).title()
                != name by {
                if j < i {
                    assert(before[j].title() != name);
                }
            }
        }
    }
    let expected = if lists[i].blocks(host) {
        blocking(before, host).insert(title)
    } else {
        blocking(before, host).remove(title)
    };
    assert forall|name: Seq<char>| #[trigger]
        blocking(after, host).contains(name) <==> expected.contains(name) by {
        if name == title {
            assert(forall|k: int| list_named(after, name, k) ==> k == i);
        } else {
            if blocking(after, host).contains(name) {
                let k = choose|k: int| #[trigger]
                    list_named(after, name, k) && after[k].blocks(host);
                assert(list_named(before, name, k) && before[k].blocks(host));
            }
            if blocking(before, host).contains(name) {
                let k = choose|k: int| #[trigger]
                    list_named(before, name, k) && before[k].blocks(host);
                assert(list_named(after, name, k) && after[k].blocks(host));
            }
        }
    }
    assert(blocking(after, host) =~= expected);
}

// ---------------------------------------------------------------------------
// Laws
// ---------------------------------------------------------------------------

/// The first rule that matches decides, whatever the later rules are and
/// whatever they yield.
pub proof fn law_first_match_wins(
    rules: Seq<Rule>,
    default_verdict: DefaultVerdict,
    host: Seq<char>,
    outcomes: Seq<CelOutcome>,
    i: int,
)
    requires
        0 <= i < outcomes.len(),
        i < rules.len(),
        matching(outcomes[i]),
        forall|j: int| 0 <= j < i ==> !matching(#[trigger] outcomes[j]),
    ensures
        decision(rules, default_verdict, host, outcomes) == rule_decision(rules[i]),
{
    lemma_first_match(outcomes, i);
}

/// When a rule can only match and no rule before it can, the policy comes to
/// that rule's verdict and to no other.
pub proof fn law_first_matching_rule_decides(
    engine: &PolicyEngine,
    hostname: Seq<char>,
    caller: Caller,
    i: int,
    verdict: Verdict,
)
    requires
        0 <= i < engine.rules().len(),
        forall|outcome: CelOutcome| #[trigger]
            engine.rule_may_yield(canonical(hostname), caller, i, outcome) ==> matching(
                outcome,
            ),
        forall|j: int, outcome: CelOutcome|
            0 <= j < i && #[trigger] engine.rule_may_yield(
                canonical(hostname),
                caller,
                j,
                outcome,
            ) ==> !matching(outcome),
        engine.may_decide(hostname, caller, verdict),
    ensures
        verdict == rule_decision(engine.rules()[i]),
{
    let host = canonical(hostname);
    let outcomes = choose|outcomes: Seq<CelOutcome>| #[trigger]
        engine.may_run(host, caller, outcomes) && verdict == decision(
            engine.rules(),
            engine.fallback(),
            host,
            outcomes,
        );
    assert forall|j: int| 0 <= j < i && j < outcomes.len() implies !matching(
        #[trigger] outcomes[j],
    ) by {
        assert(engine.rule_may_yield(host, caller, j, outcomes[j]));
    }
    if outcomes.len() <= i {
        assert(matching(outcomes.last()));
        assert(!matching(outcomes[outcomes.len() - 1]));
    }
    assert(engine.rule_may_yield(host, caller, i, outcomes[i]));
    lemma_first_match(outcomes, i);
}

/// A plain rule yields a truth value, the one that its expression has of the
/// name and the caller.
pub proof fn law_plain_rules_mean_what_they_say(
    engine: &PolicyEngine,
    hostname: Seq<char>,
    caller: Caller,
    i: int,
    t: Term,
    outcome: CelOutcome,
)
    requires
        0 <= i < engine.rules().len(),
        plain::written(engine.rules()[i].expr, t),
        engine.rule_may_yield(canonical(hostname), caller, i, outcome),
    ensures
        outcome == CelOutcome::Bool(
            plain::holds(t, rule_facts(engine.lists(), canonical(hostname), caller)),
        ),
{
    lemma_rule_facts(engine.lists(), canonical(hostname), caller);
}

/// What plain rules yield for a canonical host and a caller, in order.
pub open spec fn plain_outcomes(terms: Seq<Term>, facts: Facts) -> Seq<CelOutcome> {
    terms.map_values(|t: Term| CelOutcome::Bool(plain::holds(t, facts)))
}

/// A policy of plain rules has one verdict on a name. The first rule whose
/// expression is true of the name and the caller decides, and the default
/// where there is none.
pub proof fn law_plain_policies_have_one_verdict(
    engine: &PolicyEngine,
    hostname: Seq<char>,
    caller: Caller,
    terms: Seq<Term>,
    verdict: Verdict,
)
    requires
        terms.len() == engine.rules().len(),
        forall|i: int|
            0 <= i < terms.len() ==> plain::written(engine.rules()[i].expr, #[trigger] terms[i]),
        engine.may_decide(hostname, caller, verdict),
    ensures
        verdict == decision(
            engine.rules(),
            engine.fallback(),
            canonical(hostname),
            plain_outcomes(terms, rule_facts(engine.lists(), canonical(hostname), caller)),
        ),
{
    let host = canonical(hostname);
    let expected = plain_outcomes(terms, rule_facts(engine.lists(), host, caller));
    let outcomes = choose|outcomes: Seq<CelOutcome>| #[trigger]
        engine.may_run(host, caller, outcomes) && verdict == decision(
            engine.rules(),
            engine.fallback(),
            host,
            outcomes,
        );
    assert forall|i: int| 0 <= i < outcomes.len() implies #[trigger] outcomes[i] == expected[i] by {
        assert(engine.rule_may_yield(host, caller, i, outcomes[i]));
        law_plain_rules_mean_what_they_say(engine, hostname, caller, i, terms[i], outcomes[i]);
    }
    lemma_first_match_found(outcomes);
    let n = first_match(outcomes);
    if n == outcomes.len() && n < expected.len() {
        assert(matching(outcomes[n - 1]));
    }
    assert forall|i: int| 0 <= i < n implies !matching(#[trigger] expected[i]) by {
        assert(!matching(outcomes[i]));
    }
    lemma_first_match(expected, n);
}

/// The first plain rule whose expression is true of the name and the caller
/// decides, if all rules before it are plain, whatever the rules after it are.
pub proof fn law_first_plain_rule_that_holds_decides(
    engine: &PolicyEngine,
    hostname: Seq<char>,
    caller: Caller,
    i: int,
    terms: Seq<Term>,
    verdict: Verdict,
)
    requires
        0 <= i < engine.rules().len(),
        terms.len() == i + 1,
        forall|j: int| 0 <= j <= i ==> plain::written(engine.rules()[j].expr, #[trigger] terms[j]),
        forall|j: int|
            0 <= j < i ==> !plain::holds(
                #[trigger] terms[j],
                rule_facts(engine.lists(), canonical(hostname), caller),
            ),
        plain::holds(terms[i], rule_facts(engine.lists(), canonical(hostname), caller)),
        engine.may_decide(hostname, caller, verdict),
    ensures
        verdict == rule_decision(engine.rules()[i]),
{
    let host = canonical(hostname);
    assert forall|j: int, outcome: CelOutcome|
        0 <= j <= i && #[trigger] engine.rule_may_yield(host, caller, j, outcome) implies outcome
        == CelOutcome::Bool(plain::holds(terms[j], rule_facts(engine.lists(), host, caller))) by {
        law_plain_rules_mean_what_they_say(engine, hostname, caller, j, terms[j], outcome);
    }
    law_first_matching_rule_decides(engine, hostname, caller, i, verdict);
}

/// A policy whose rules are all plain loads, and its rules keep to the
/// documented part of the expression language.
pub proof fn law_plain_policies_load(
    config: PolicyConfig,
    files: Seq<Vec<u8>>,
    r: Result<PolicyEngine, RuleError>,
)
    requires
        loads(config, files, r),
        forall|i: int| 0 <= i < config.rules@.len() ==> rule_is_plain(#[trigger] config.rules@[i]),
    ensures
        r is Ok,
        r->Ok_0.all_documented(),
        forall|i: int|
            0 <= i < config.rules@.len() ==> cel::documented((#[trigger] config.rules@[i]).expr@),
{
    assert forall|i: int| 0 <= i < config.rules@.len() implies cel::documented(
        (#[trigger] config.rules@[i]).expr@,
    ) by {
        assert(rule_is_plain(config.rules@[i]));
        let t = choose|t: Term| #[trigger] plain::written(config.rules@[i].expr@, t);
        plain::law_plain_expressions_are_documented(config.rules@[i].expr@, t);
    }
}

/// A rule `blocked_by("name")` matches exactly the names that the list of that
/// name blocks.
pub proof fn law_blocked_by_rules_match_the_list(
    engine: &PolicyEngine,
    hostname: Seq<char>,
    caller: Caller,
    i: int,
    name: Seq<char>,
    list: int,
    outcome: CelOutcome,
)
    requires
        0 <= i < engine.rules().len(),
        plain::written(engine.rules()[i].expr, Term::BlockedBy(name)),
        list_named(engine.lists(), name, list),
        engine.rule_may_yield(canonical(hostname), caller, i, outcome),
    ensures
        matching(outcome) <==> engine.lists()[list].blocks(canonical(hostname)),
{
    let t = Term::BlockedBy(name);
    law_plain_rules_mean_what_they_say(engine, hostname, caller, i, t, outcome);
    law_last_list_of_a_name_counts(engine.lists(), name, list, canonical(hostname));
}

/// A first rule `blocked_by("name")` that denies does so for every name that
/// the list blocks, and gives its note as the reason.
pub proof fn law_blocked_names_are_denied(
    engine: &PolicyEngine,
    hostname: Seq<char>,
    caller: Caller,
    name: Seq<char>,
    list: int,
    verdict: Verdict,
)
    requires
        engine.rules().len() > 0,
        plain::written(engine.rules()[0].expr, Term::BlockedBy(name)),
        engine.rules()[0].verdict == RuleVerdict::Deny,
        list_named(engine.lists(), name, list),
        engine.lists()[list].blocks(canonical(hostname)),
        engine.may_decide(hostname, caller, verdict),
    ensures
        verdict == Verdict::Denied("matched rule: "@ + engine.rules()[0].note),
{
    law_last_list_of_a_name_counts(engine.lists(), name, list, canonical(hostname));
    law_first_plain_rule_that_holds_decides(
        engine,
        hostname,
        caller,
        0,
        seq![Term::BlockedBy(name)],
        verdict,
    );
}

/// A rule `hostname == "name"` matches exactly the lookups of that name, in
/// whatever case and with or without a trailing dot.
pub proof fn law_hostname_rules_match_the_name(
    engine: &PolicyEngine,
    hostname: Seq<char>,
    caller: Caller,
    i: int,
    name: Seq<char>,
    outcome: CelOutcome,
)
    requires
        0 <= i < engine.rules().len(),
        plain::written(engine.rules()[i].expr, Term::HostnameIs(name)),
        engine.rule_may_yield(canonical(hostname), caller, i, outcome),
    ensures
        matching(outcome) <==> canonical(hostname) == name,
{
    let t = Term::HostnameIs(name);
    law_plain_rules_mean_what_they_say(engine, hostname, caller, i, t, outcome);
}

/// A rule `hostname.startsWith("s")`, `hostname.endsWith("s")` or
/// `hostname.contains("s")` matches exactly the names that start with the
/// text, end with it or have it in them.
pub proof fn law_method_rules_find_their_text(
    engine: &PolicyEngine,
    hostname: Seq<char>,
    caller: Caller,
    i: int,
    method: Method,
    s: Seq<char>,
    outcome: CelOutcome,
)
    requires
        0 <= i < engine.rules().len(),
        plain::written(engine.rules()[i].expr, Term::Call(method, s)),
        engine.rule_may_yield(canonical(hostname), caller, i, outcome),
    ensures
        matching(outcome) <==> plain::finds(method, canonical(hostname), s),
{
    let t = Term::Call(method, s);
    law_plain_rules_mean_what_they_say(engine, hostname, caller, i, t, outcome);
}

/// A rule `uid == n` matches exactly the lookups of the user with that uid,
/// and never those of an unidentified caller.
pub proof fn law_uid_rules_match_the_user(
    engine: &PolicyEngine,
    hostname: Seq<char>,
    caller: Caller,
    i: int,
    n: nat,
    outcome: CelOutcome,
)
    requires
        0 <= i < engine.rules().len(),
        plain::written(engine.rules()[i].expr, Term::Compare(Id::Uid, Relation::Equal, n as int)),
        engine.rule_may_yield(canonical(hostname), caller, i, outcome),
    ensures
        matching(outcome) <==> caller.uid is Some && caller.uid->0 == n,
{
    let t = Term::Compare(Id::Uid, Relation::Equal, n as int);
    law_plain_rules_mean_what_they_say(engine, hostname, caller, i, t, outcome);
}

/// The variables and functions of a rule give its facts.
proof fn lemma_rule_facts(lists: Seq<Blocklist>, host: Seq<char>, caller: Caller)
    ensures
        plain::gives(
            rule_variables(host, caller),
            rule_predicates(lists, host),
            rule_facts(lists, host, caller),
        ),
{
    reveal_strlit("hostname");
    reveal_strlit("uid");
    reveal_strlit("gid");
    reveal_strlit("pid");
    reveal_strlit("blocked_by");
    reveal_strlit("startsWith");
    reveal_strlit("endsWith");
    reveal_strlit("contains");
    assert("hostname"@.len() == 8 && "uid"@.len() == 3 && "gid"@.len() == 3 && "pid"@.len() == 3);
    assert("uid"@[0] == 'u' && "gid"@[0] == 'g' && "pid"@[0] == 'p');
    assert("blocked_by"@[0] == 'b' && "startsWith"@[0] == 's');
    assert("endsWith"@[0] == 'e' && "contains"@[0] == 'c');
}

/// When no rule matches, the default verdict applies.
pub proof fn law_no_match_leaves_the_default(
    rules: Seq<Rule>,
    default_verdict: DefaultVerdict,
    host: Seq<char>,
    outcomes: Seq<CelOutcome>,
)
    requires
        forall|j: int| 0 <= j < outcomes.len() ==> !matching(#[trigger] outcomes[j]),
    ensures
        decision(rules, default_verdict, host, outcomes) == default_decision(default_verdict, host),
{
    lemma_first_match(outcomes, outcomes.len() as int);
}

/// The canonical form of a name is lower-case and not empty, and ends with a
/// dot only when it is the root's.
pub proof fn law_canonical_form(name: Seq<char>)
    ensures
        canonical(name).len() > 0,
        text::lower(canonical(name)) == canonical(name),
        canonical(name).last() == '.' ==> canonical(name) == seq!['.'],
{
    let dot = |c: char| seq!['.'].contains(c);
    let low = text::lower(name);
    text::lemma_trim_end_prefix(low, dot);
    assert(dot('.')) by {
        assert(seq!['.'][0] == '.');
    }
    assert(text::lower(canonical(name)) =~= canonical(name));
}

/// Canonicalising a name twice is the same as doing it once.
pub proof fn law_canonical_idempotent(name: Seq<char>)
    ensures
        canonical(canonical(name)) == canonical(name),
{
    let dot = |c: char| seq!['.'].contains(c);
    let low = text::lower(name);
    law_canonical_form(name);
    text::lemma_trim_end_prefix(low, dot);
    let c = canonical(name);
    if undotted(low).len() == 0 {
        assert(dot('.')) by {
            assert(seq!['.'][0] == '.');
        }
        assert(c.drop_last() =~= Seq::empty());
        assert(undotted(c) == undotted(c.drop_last()));
    } else {
        assert(undotted(c) == c);
    }
}

/// Case and trailing dots do not matter: a name in other case, or with a dot
/// after it, is the same name.
pub proof fn law_case_and_trailing_dots_do_not_matter(a: Seq<char>, b: Seq<char>)
    requires
        text::lower(a) == text::lower(b),
    ensures
        canonical(a) == canonical(b),
        canonical(a.push('.')) == canonical(a),
{
    let dot = |c: char| seq!['.'].contains(c);
    let low = text::lower(a.push('.'));
    assert(low.last() == '.');
    assert(dot('.')) by {
        assert(seq!['.'][0] == '.');
    }
    assert(low.drop_last() =~= text::lower(a));
    assert(undotted(low) == undotted(text::lower(a)));
}

/// The DNS root, however it is written, reaches the rules as `.`.
pub proof fn law_root_is_a_dot()
    ensures
        canonical(Seq::empty()) == seq!['.'],
        canonical(seq!['.']) == seq!['.'],
{
    let empty = Seq::<char>::empty();
    assert(text::lower(empty) =~= empty);
    law_case_and_trailing_dots_do_not_matter(empty, empty);
    assert(empty.push('.') =~= seq!['.']);
}

/// Names with the same canonical form are the same name to every rule and
/// blocklist: the policy may come to the same verdicts on both.
pub proof fn law_same_name_same_verdicts(
    engine: &PolicyEngine,
    a: Seq<char>,
    b: Seq<char>,
    caller: Caller,
    verdict: Verdict,
)
    requires
        canonical(a) == canonical(b),
    ensures
        engine.may_decide(a, caller, verdict) == engine.may_decide(b, caller, verdict),
        engine.returns_for(a, caller) == engine.returns_for(b, caller),
{
}

/// Two evaluations of one name for one caller come to the same verdict, in
/// whatever case the name is and with or without trailing dots, where each
/// rule has at most one outcome.
pub proof fn law_one_name_one_verdict(
    engine: &PolicyEngine,
    a: Seq<char>,
    b: Seq<char>,
    caller: Caller,
    of_a: Verdict,
    of_b: Verdict,
)
    requires
        canonical(a) == canonical(b),
        engine.definite(canonical(a), caller),
        engine.may_decide(a, caller, of_a),
        engine.may_decide(b, caller, of_b),
    ensures
        of_a == of_b,
{
    let host = canonical(a);
    let (rules, default_verdict) = (engine.rules(), engine.fallback());
    let first = choose|outcomes: Seq<CelOutcome>| #[trigger]
        engine.may_run(host, caller, outcomes) && of_a == decision(rules, default_verdict, host, outcomes);
    let second = choose|outcomes: Seq<CelOutcome>| #[trigger]
        engine.may_run(host, caller, outcomes) && of_b == decision(rules, default_verdict, host, outcomes);
    assert forall|i: int| 0 <= i < first.len() && i < second.len() implies #[trigger] first[i]
        == #[trigger] second[i] by {
        assert(engine.rule_may_yield(host, caller, i, first[i]));
        assert(engine.rule_may_yield(host, caller, i, second[i]));
    }
    lemma_first_match_found(first);
    lemma_first_match_found(second);
    let (m, n) = (first_match(first), first_match(second));
    if m < first.len() && m < second.len() {
        assert(first[m] == second[m]);
    }
    if n < second.len() && n < first.len() {
        assert(first[n] == second[n]);
    }
    if first.len() < rules.len() {
        assert(matching(first[first.len() - 1]));
    }
    if second.len() < rules.len() {
        assert(matching(second[second.len() - 1]));
    }
}

/// Rules in the documented part of the expression language have at most one
/// outcome each, so that every name has one verdict.
pub proof fn law_documented_rules_are_definite(
    engine: &PolicyEngine,
    host: Seq<char>,
    caller: Caller,
)
    requires
        engine.all_documented(),
    ensures
        engine.definite(host, caller),
{
}

/// A dot after a name and the case of its letters change nothing, so that
/// `Blocked.Test.` is decided as `blocked.test` is.
pub proof fn law_case_and_trailing_dot_keep_the_verdict(
    engine: &PolicyEngine,
    name: Seq<char>,
    caller: Caller,
    plain: Verdict,
    dotted: Verdict,
    lowered: Verdict,
)
    requires
        engine.all_documented(),
        engine.may_decide(name, caller, plain),
        engine.may_decide(name.push('.'), caller, dotted),
        engine.may_decide(text::lower(name), caller, lowered),
    ensures
        plain == dotted,
        plain == lowered,
{
    law_documented_rules_are_definite(engine, canonical(name), caller);
    assert(text::lower(text::lower(name)) =~= text::lower(name));
    law_case_and_trailing_dots_do_not_matter(name, text::lower(name));
    law_one_name_one_verdict(engine, name, name.push('.'), caller, plain, dotted);
    law_one_name_one_verdict(engine, name, text::lower(name), caller, plain, lowered);
}

/// A name is allowed only by a rule that allows: never by default.
pub proof fn law_only_rules_allow(engine: &PolicyEngine, hostname: Seq<char>, caller: Caller)
    requires
        engine.may_decide(hostname, caller, Verdict::Allowed),
    ensures
        exists|i: int|
            0 <= i < engine.rules().len() && (#[trigger] engine.rules()[i]).verdict
                == RuleVerdict::Allow,
{
    let host = canonical(hostname);
    let outcomes = choose|outcomes: Seq<CelOutcome>| #[trigger]
        engine.may_run(host, caller, outcomes) && Verdict::Allowed == decision(
            engine.rules(),
            engine.fallback(),
            host,
            outcomes,
        );
    let i = first_match(outcomes);
    lemma_first_match_found(outcomes);
    assert(engine.rules()[i].verdict == RuleVerdict::Allow);
}

/// A policy without rules comes to its default verdict, and to no other.
pub proof fn law_no_rules_leave_the_default(
    engine: &PolicyEngine,
    hostname: Seq<char>,
    caller: Caller,
    verdict: Verdict,
)
    requires
        engine.rules().len() == 0,
    ensures
        engine.may_decide(hostname, caller, verdict) <==> verdict == default_decision(
            engine.fallback(),
            canonical(hostname),
        ),
{
    let none = Seq::<CelOutcome>::empty();
    assert(engine.may_run(canonical(hostname), caller, none));
}

/// `blocked_by` goes by the last list of a name.
pub proof fn law_last_list_of_a_name_counts(
    lists: Seq<Blocklist>,
    name: Seq<char>,
    i: int,
    host: Seq<char>,
)
    requires
        list_named(lists, name, i),
    ensures
        blocking(lists, host).contains(name) == lists[i].blocks(host),
{
    assert forall|k: int| list_named(lists, name, k) implies k == i by {
        if k < i {
            assert(lists[i].title() != name);
        }
        if i < k {
            assert(lists[k].title() != name);
        }
    }
}

/// The first match, if there is one, is a match, and none is before it.
proof fn lemma_first_match_found(outcomes: Seq<CelOutcome>)
    ensures
        0 <= first_match(outcomes) <= outcomes.len(),
        first_match(outcomes) < outcomes.len() ==> matching(outcomes[first_match(outcomes)]),
        forall|i: int| 0 <= i < first_match(outcomes) ==> !matching(#[trigger] outcomes[i]),
    decreases outcomes.len(),
{
    if outcomes.len() > 0 && !matching(outcomes[0]) {
        let rest = outcomes.skip(1);
        lemma_first_match_found(rest);
        assert forall|i: int| 0 <= i < first_match(outcomes) implies !matching(
            #[trigger] outcomes[i],
        ) by {
            if i > 0 {
                assert(!matching(rest[i - 1]));
            }
        }
    }
}

/// Canonicalising changes nothing but the case of letters and the dots at the
/// end: the canonical form is the start of the lower-case name, and what is
/// left out is dots. A name of dots alone, or of nothing, is the root's.
pub proof fn law_canonical_drops_case_and_dots_only(name: Seq<char>)
    ensures
        (forall|i: int| 0 <= i < name.len() ==> #[trigger] name[i] == '.') ==> canonical(name)
            == seq!['.'],
        (exists|i: int| 0 <= i < name.len() && #[trigger] name[i] != '.') ==> {
            let kept = canonical(name).len() as int;
            &&& 0 < kept <= name.len()
            &&& canonical(name) == text::lower(name).take(kept)
            &&& forall|i: int| kept <= i < name.len() ==> #[trigger] name[i] == '.'
            &&& name[kept - 1] != '.'
        },
{
    let dot = |c: char| seq!['.'].contains(c);
    assert forall|c: char| #[trigger] dot(c) <==> c == '.' by {
        assert(seq!['.'][0] == '.');
    }
    let low = text::lower(name);
    text::law_lower_changes_capitals_only(name);
    assert forall|i: int| 0 <= i < name.len() implies (#[trigger] low[i] == '.') == (name[i]
        == '.') by {}
    let kept = lemma_last_kept(name);
    assert forall|i: int| kept <= i < low.len() implies dot(#[trigger] low[i]) by {
        assert(name[i] == '.');
    }
    if kept > 0 {
        assert(!dot(low[kept - 1]));
    }
    text::law_trim_end(low, dot, kept);
    if exists|i: int| 0 <= i < name.len() && #[trigger] name[i] != '.' {
        let i = choose|i: int| 0 <= i < name.len() && #[trigger] name[i] != '.';
        assert(i < kept);
    }
}

/// How many characters there are before the dots at the end.
proof fn lemma_last_kept(name: Seq<char>) -> (kept: int)
    ensures
        0 <= kept <= name.len(),
        forall|i: int| kept <= i < name.len() ==> #[trigger] name[i] == '.',
        kept > 0 ==> name[kept - 1] != '.',
    decreases name.len(),
{
    if name.len() > 0 && name.last() == '.' {
        let shorter = name.drop_last();
        let kept = lemma_last_kept(shorter);
        assert forall|i: int| kept <= i < name.len() implies #[trigger] name[i] == '.' by {
            if i < shorter.len() {
                assert(shorter[i] == '.');
            }
        }
        kept
    } else {
        name.len() as int
    }
}

/// A name in lower case that does not end with a dot is its own canonical form.
pub proof fn law_plain_names_are_canonical(name: Seq<char>)
    requires
        name.len() > 0,
        name.last() != '.',
        forall|i: int| 0 <= i < name.len() ==> !('A' <= #[trigger] name[i] <= 'Z'),
    ensures
        canonical(name) == name,
{
    law_canonical_drops_case_and_dots_only(name);
    text::law_lower_changes_capitals_only(name);
    assert(name[name.len() - 1] != '.');
    assert(text::lower(name) =~= name);
    let kept = canonical(name).len() as int;
    if kept < name.len() {
        assert(name[name.len() - 1] == '.');
    }
    assert(name.take(kept) =~= name);
}

/// What a rule decides goes by its verdict alone, and a denial says which rule
/// it was; what is decided by default says of which host.
pub proof fn law_verdicts(expr: Seq<char>, note: Seq<char>, host: Seq<char>)
    ensures
        rule_decision(Rule { expr, note, verdict: RuleVerdict::Allow }) == Verdict::Allowed,
        rule_decision(Rule { expr, note, verdict: RuleVerdict::Passthrough })
            == Verdict::PassThrough,
        rule_decision(Rule { expr, note, verdict: RuleVerdict::Deny }) == Verdict::Denied(
            "matched rule: "@ + note,
        ),
        default_decision(DefaultVerdict::Passthrough, host) == Verdict::PassThrough,
        default_decision(DefaultVerdict::Deny, host) == Verdict::Denied(
            host + " denied by default policy"@,
        ),
{
}

/// A rule matches when its expression is true, and not when it is false, of
/// another type or an error; the first that matches decides, and the default
/// where none does.
pub proof fn law_the_first_true_rule_decides(
    rules: Seq<Rule>,
    default_verdict: DefaultVerdict,
    host: Seq<char>,
    outcomes: Seq<CelOutcome>,
    i: int,
)
    requires
        outcomes.len() <= rules.len(),
        0 <= i <= outcomes.len(),
        forall|j: int| 0 <= j < i ==> #[trigger] outcomes[j] != CelOutcome::Bool(true),
        i < outcomes.len() ==> outcomes[i] == CelOutcome::Bool(true),
    ensures
        decision(rules, default_verdict, host, outcomes) == if i < outcomes.len() {
            rule_decision(rules[i])
        } else {
            default_decision(default_verdict, host)
        },
{
    lemma_first_match(outcomes, i);
}

/// An evaluation runs the rules on the canonical name, in order, up to the
/// first whose expression is true. That rule decides, and the default where
/// there is none.
pub proof fn law_evaluation_runs_the_rules(
    engine: &PolicyEngine,
    hostname: Seq<char>,
    caller: Caller,
    verdict: Verdict,
)
    requires
        engine.may_decide(hostname, caller, verdict),
    ensures
        exists|outcomes: Seq<CelOutcome>, n: int| #[trigger]
            ran(engine, canonical(hostname), caller, outcomes, n) && verdict == if n
                < engine.rules().len() {
                rule_decision(engine.rules()[n])
            } else {
                default_decision(engine.fallback(), canonical(hostname))
            },
{
    let host = canonical(hostname);
    let outcomes = choose|outcomes: Seq<CelOutcome>| #[trigger]
        engine.may_run(host, caller, outcomes) && verdict == decision(
            engine.rules(),
            engine.fallback(),
            host,
            outcomes,
        );
    lemma_first_match_found(outcomes);
    let n = first_match(outcomes);
    if n == outcomes.len() && n < engine.rules().len() {
        assert(matching(outcomes[n - 1]));
    }
    assert(ran(engine, host, caller, outcomes, n));
}

/// Whether these may be what the first rules come to, of which the one at `n`
/// is the first that is true, or none is and `n` is their number.
pub open spec fn ran(
    engine: &PolicyEngine,
    host: Seq<char>,
    caller: Caller,
    outcomes: Seq<CelOutcome>,
    n: int,
) -> bool {
    &&& 0 <= n <= outcomes.len() <= engine.rules().len()
    &&& n == outcomes.len() ==> n == engine.rules().len()
    &&& forall|i: int|
        0 <= i < outcomes.len() ==> cel::may_yield(
            engine.rules()[i].expr,
            rule_variables(host, caller),
            rule_predicates(engine.lists(), host),
            #[trigger] outcomes[i],
        )
    &&& forall|i: int| 0 <= i < n ==> #[trigger] outcomes[i] != CelOutcome::Bool(true)
    &&& n < outcomes.len() ==> outcomes[n] == CelOutcome::Bool(true)
}

/// Rules see four variables, the canonical name and the three numbers of the
/// caller, with `-1` for a number that is not known, and one function besides
/// the built-in ones.
pub proof fn law_what_rules_see(lists: Seq<Blocklist>, host: Seq<char>, caller: Caller)
    ensures
        rule_variables(host, caller).dom() == set!["hostname"@, "uid"@, "gid"@, "pid"@],
        rule_variables(host, caller)["hostname"@] == CelValue::Text(host),
        rule_variables(host, caller)["uid"@] == CelValue::Int(
            if caller.uid is Some {
                caller.uid->0 as int
            } else {
                -1
            },
        ),
        rule_variables(host, caller)["gid"@] == CelValue::Int(
            if caller.gid is Some {
                caller.gid->0 as int
            } else {
                -1
            },
        ),
        rule_variables(host, caller)["pid"@] == CelValue::Int(
            if caller.pid is Some {
                caller.pid->0 as int
            } else {
                -1
            },
        ),
        rule_predicates(lists, host).dom() == set!["blocked_by"@],
        rule_predicates(lists, host)["blocked_by"@] == blocking(lists, host),
{
    lemma_rule_facts(lists, host, caller);
    assert(rule_variables(host, caller).dom() =~= set!["hostname"@, "uid"@, "gid"@, "pid"@]);
    assert(rule_predicates(lists, host).dom() =~= set!["blocked_by"@]);
}

/// A rule `uid == n`, `gid == n` or `pid == n`, or with another comparison,
/// compares that number of the caller, and `-1` if it is not known.
pub proof fn law_number_rules_compare_the_caller(
    engine: &PolicyEngine,
    hostname: Seq<char>,
    caller: Caller,
    i: int,
    relation: Relation,
    n: int,
    outcome: CelOutcome,
)
    requires
        0 <= i < engine.rules().len(),
        engine.rule_may_yield(canonical(hostname), caller, i, outcome),
    ensures
        plain::written(engine.rules()[i].expr, Term::Compare(Id::Uid, relation, n)) ==> outcome
            == CelOutcome::Bool(
            plain::related(
                relation,
                if caller.uid is Some {
                    caller.uid->0 as int
                } else {
                    -1
                },
                n,
            ),
        ),
        plain::written(engine.rules()[i].expr, Term::Compare(Id::Gid, relation, n)) ==> outcome
            == CelOutcome::Bool(
            plain::related(
                relation,
                if caller.gid is Some {
                    caller.gid->0 as int
                } else {
                    -1
                },
                n,
            ),
        ),
        plain::written(engine.rules()[i].expr, Term::Compare(Id::Pid, relation, n)) ==> outcome
            == CelOutcome::Bool(
            plain::related(
                relation,
                if caller.pid is Some {
                    caller.pid->0 as int
                } else {
                    -1
                },
                n,
            ),
        ),
{
    lemma_rule_facts(engine.lists(), canonical(hostname), caller);
}

/// Lists are asked in order: one more list settles for its name whether that
/// blocks a host, and nothing for other names.
pub proof fn law_one_more_list(lists: Seq<Blocklist>, list: Blocklist, host: Seq<char>)
    ensures
        blocking(seq![], host) == Set::<Seq<char>>::empty(),
        list.blocks(host) ==> blocking(lists.push(list), host) == blocking(lists, host).insert(
            list.title(),
        ),
        !list.blocks(host) ==> blocking(lists.push(list), host) == blocking(lists, host).remove(
            list.title(),
        ),
{
    let all = lists.push(list);
    let n = lists.len() as int;
    assert(blocking(seq![], host) =~= Set::<Seq<char>>::empty());
    lemma_blocking_step(all, host, n);
    assert(all.take(n) =~= lists);
    assert(all.take(n + 1) =~= all);
    assert(all[n] == list);
}

/// A policy that was loaded has the rules, the default and the lists of its
/// configuration, in its order and with nothing left out or added; the lists
/// have the entries of their files.
pub proof fn law_loading_keeps_the_configuration(
    config: PolicyConfig,
    files: Seq<Vec<u8>>,
    engine: PolicyEngine,
    i: int,
)
    requires
        loads(config, files, Ok(engine)),
    ensures
        engine.fallback() == config.default_verdict,
        engine.rules().len() == config.rules@.len(),
        0 <= i < config.rules@.len() ==> {
            &&& engine.rules()[i].expr == config.rules@[i].expr@
            &&& engine.rules()[i].note == config.rules@[i].note@
            &&& engine.rules()[i].verdict == config.rules@[i].verdict
        },
        engine.lists().len() == files.len(),
        0 <= i < files.len() ==> {
            &&& engine.lists()[i].title() == config.blocklists@[i].name@
            &&& engine.lists()[i].exact() == blocklist::exact_entries(files[i]@)
            &&& engine.lists()[i].suffixes() == blocklist::suffix_entries(files[i]@)
        },
{
}

/// Loading fails on the first rule whose expression does not compile, says
/// which one it is and gives its note and the compiler's message; it succeeds
/// if there is none.
pub proof fn law_load_errors(
    config: PolicyConfig,
    files: Seq<Vec<u8>>,
    r: Result<PolicyEngine, RuleError>,
    i: int,
)
    requires
        loads(config, files, r),
        0 <= i < config.rules@.len(),
    ensures
        r is Ok ==> cel::compiled(config.rules@[i].expr@) is Some && cel::compiled(
            config.rules@[i].expr@,
        )->0 is Ok,
        r matches Err(e) ==> {
            &&& e.index < config.rules@.len()
            &&& e.note@ == config.rules@[e.index as int].note@
            &&& cel::compiled(config.rules@[e.index as int].expr@) == Some(
                Err::<Program, Seq<char>>(e.message@),
            )
            &&& i < e.index ==> cel::compiled(config.rules@[i].expr@) is Some && cel::compiled(
                config.rules@[i].expr@,
            )->0 is Ok
        },
{
    if r is Ok || i < r->Err_0.index {
        assert(rule_compiles(config.rules@[i]));
    }
}

/// A policy keeps to the documented language exactly if each of its rules does.
pub proof fn law_documented_policies(engine: &PolicyEngine)
    ensures
        engine.all_documented() <==> forall|i: int|
            0 <= i < engine.rules().len() ==> cel::documented(#[trigger] engine.rules()[i].expr),
{
}

/// A verdict is what it is, with its reason to the letter.
pub proof fn law_views_of_verdicts(reason: String)
    ensures
        PolicyVerdict::Denied(reason)@ == Verdict::Denied(reason@),
        PolicyVerdict::PassThrough@ == Verdict::PassThrough,
        PolicyVerdict::Allowed@ == Verdict::Allowed,
{
}

} // verus!
