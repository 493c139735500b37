//! The policy socket: what each request of a connection is answered.
use crate::addr::IpAddr;
use crate::policy;
use crate::policy::{Caller, PolicyEngine, PolicyVerdict};
use crate::protocol::{ResolveRequest, ResolveResponse};
use crate::relay::Relays;
use crate::upstream;
use crate::upstream::upstream_resolve;
use vstd::prelude::*;

verus! {

/// A response, with its parts as sequences.
pub enum ResponseView {
    Denied(Seq<char>),
    PassThrough,
    Resolved(Seq<IpAddr>),
}

impl View for ResolveResponse {
    type V = ResponseView;

    open spec fn view(&self) -> ResponseView {
        match self {
            ResolveResponse::Denied { reason } => ResponseView::Denied(reason@),
            ResolveResponse::PassThrough => ResponseView::PassThrough,
            ResolveResponse::Resolved { addresses } => ResponseView::Resolved(addresses@),
        }
    }
}

/// The response to a request that the policy has decided on. It is a denial
/// with its reason, the daemon's own records for an allowed name, and
/// otherwise no opinion.
pub open spec fn judged(hostname: Seq<char>, verdict: policy::Verdict) -> ResponseView {
    match verdict {
        policy::Verdict::Denied(reason) => ResponseView::Denied(reason),
        policy::Verdict::PassThrough => ResponseView::PassThrough,
        policy::Verdict::Allowed => {
            if upstream::own_records(hostname).len() == 0 {
                ResponseView::PassThrough
            } else {
                ResponseView::Resolved(upstream::own_records(hostname))
            }
        },
    }
}

/// Whether this may be the response to a request: a relay's is passed through
/// unjudged, and any other is judged.
pub open spec fn may_respond(
    engine: &PolicyEngine,
    relays: &Relays,
    caller: Caller,
    hostname: Seq<char>,
    response: ResponseView,
) -> bool {
    if relays.relays(caller) {
        response == ResponseView::PassThrough
    } else {
        exists|verdict: policy::Verdict| #[trigger]
            engine.may_decide(hostname, caller, verdict) && response == judged(hostname, verdict)
    }
}

/// The response to a request that the policy has decided on.
pub fn judge(hostname: &str, verdict: PolicyVerdict) -> (r: ResolveResponse)
    ensures
        r@ == judged(hostname@, verdict@),
{
    match verdict {
        PolicyVerdict::Denied(reason) => ResolveResponse::Denied { reason },
        PolicyVerdict::PassThrough => ResolveResponse::PassThrough,
        PolicyVerdict::Allowed => {
            let addresses = upstream_resolve(hostname);
            if addresses.len() == 0 {
                ResolveResponse::PassThrough
            } else {
                ResolveResponse::Resolved { addresses }
            }
        },
    }
}

/// The response to a request of a connection.
pub fn respond(
    engine: &PolicyEngine,
    relays: &Relays,
    caller: &Caller,
    request: &ResolveRequest,
) -> (r: ResolveResponse)
    requires
        relays.relays(*caller) || engine.returns_for(request.hostname@, *caller),
    ensures
        may_respond(engine, relays, *caller, request.hostname@, r@),
{
    if relays.contains(caller) {
        return ResolveResponse::PassThrough;
    }
    let verdict = engine.evaluate_for(request.hostname.as_str(), caller);
    judge(request.hostname.as_str(), verdict)
}

/// The response to a request of a connection, if every rule of the policy
/// keeps to the documented part of the expression language.
pub fn respond_checked(
    engine: &PolicyEngine,
    relays: &Relays,
    caller: &Caller,
    request: &ResolveRequest,
) -> (r: Option<ResolveResponse>)
    ensures
        r is Some <==> engine.all_documented(),
        r matches Some(response) ==> may_respond(
            engine,
            relays,
            *caller,
            request.hostname@,
            response@,
        ),
{
    if engine.is_documented() {
        Some(respond(engine, relays, caller, request))
    } else {
        None
    }
}

/// A denial is answered with its reason.
pub proof fn law_denials_give_their_reason(hostname: Seq<char>, reason: Seq<char>)
    ensures
        judged(hostname, policy::Verdict::Denied(reason)) == ResponseView::Denied(reason),
{
}

/// A relay's request is passed through whatever the policy says.
pub proof fn law_relays_are_not_judged(
    engine: &PolicyEngine,
    relays: &Relays,
    caller: Caller,
    hostname: Seq<char>,
    response: ResponseView,
)
    requires
        relays.relays(caller),
        may_respond(engine, relays, caller, hostname, response),
    ensures
        response == ResponseView::PassThrough,
{
}

/// A name is resolved only if the policy allows it, and to at least one
/// address.
pub proof fn law_only_allowed_names_are_resolved(
    engine: &PolicyEngine,
    relays: &Relays,
    caller: Caller,
    hostname: Seq<char>,
    addresses: Seq<IpAddr>,
)
    requires
        may_respond(engine, relays, caller, hostname, ResponseView::Resolved(addresses)),
    ensures
        engine.may_decide(hostname, caller, policy::Verdict::Allowed),
        addresses.len() > 0,
{
}

/// A denied name is answered with the policy's reason. There is no opinion on
/// a name that is passed through, or that is allowed without the daemon
/// knowing an address. `example.local`, if it is allowed, is 10.0.0.1.
pub proof fn law_answers_follow_the_verdict(hostname: Seq<char>, reason: Seq<char>)
    ensures
        judged(hostname, policy::Verdict::Denied(reason)) == ResponseView::Denied(reason),
        judged(hostname, policy::Verdict::PassThrough) == ResponseView::PassThrough,
        hostname != "example.local"@ ==> judged(hostname, policy::Verdict::Allowed)
            == ResponseView::PassThrough,
        hostname == "example.local"@ ==> {
            &&& judged(hostname, policy::Verdict::Allowed) is Resolved
            &&& judged(hostname, policy::Verdict::Allowed)->Resolved_0.len() == 1
            &&& judged(hostname, policy::Verdict::Allowed)->Resolved_0[0].octets() == seq![
                10u8,
                0,
                0,
                1,
            ]
        },
{
    upstream::law_one_name_is_known(hostname);
}

/// A request that no relay makes is answered by the policy's verdict on the
/// name that was asked for and the caller that asked.
pub proof fn law_requests_are_judged(
    engine: &PolicyEngine,
    relays: &Relays,
    caller: Caller,
    hostname: Seq<char>,
    response: ResponseView,
)
    requires
        !relays.relays(caller),
        may_respond(engine, relays, caller, hostname, response),
    ensures
        response matches ResponseView::Denied(reason) ==> engine.may_decide(
            hostname,
            caller,
            policy::Verdict::Denied(reason),
        ),
        response is Resolved ==> engine.may_decide(hostname, caller, policy::Verdict::Allowed)
            && hostname == "example.local"@,
        response is PassThrough ==> engine.may_decide(
            hostname,
            caller,
            policy::Verdict::PassThrough,
        ) || (engine.may_decide(hostname, caller, policy::Verdict::Allowed) && hostname
            != "example.local"@),
{
    let verdict = choose|verdict: policy::Verdict| #[trigger]
        engine.may_decide(hostname, caller, verdict) && response == judged(hostname, verdict);
    match verdict {
        policy::Verdict::Denied(reason) => {
            law_answers_follow_the_verdict(hostname, reason);
        },
        _ => {
            law_answers_follow_the_verdict(hostname, Seq::empty());
        },
    }
}

/// A response is what it is, with its reason and addresses as they are.
pub proof fn law_views_of_responses(reason: String, addresses: Vec<IpAddr>)
    ensures
        (ResolveResponse::Denied { reason })@ == ResponseView::Denied(reason@),
        ResolveResponse::PassThrough@ == ResponseView::PassThrough,
        (ResolveResponse::Resolved { addresses })@ == ResponseView::Resolved(addresses@),
{
}

} // verus!
