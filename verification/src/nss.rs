//! The NSS module's side: how the daemon's response becomes an answer for
//! glibc.
//!
//! A denial is "not found", which stops the NSS chain. No opinion, and a
//! daemon that cannot be reached, are "unavailable", which makes glibc try
//! the next source.
use crate::addr::IpAddr;
use crate::protocol::ResolveResponse;
use vstd::prelude::*;

verus! {

/// The family of addresses that is asked for.
#[derive(Debug, Clone, Copy, PartialEq, Eq, Structural)]
pub enum AddressFamily {
    IPv4,
    IPv6,
    Unspecified,
}

/// The addresses of a host, of one family.
#[derive(Debug, Clone, PartialEq, Eq)]
pub enum Addresses {
    V4(Vec<[u8; 4]>),
    V6(Vec<[u8; 16]>),
}

/// A host that was found.
#[derive(Debug, Clone, PartialEq, Eq)]
pub struct Host {
    pub name: String,
    pub addresses: Addresses,
    pub aliases: Vec<String>,
}

/// The answer for glibc.
#[derive(Debug, Clone, PartialEq, Eq)]
pub enum Answer {
    /// The name does not exist.
    NotFound,
    /// The next source is to be asked.
    Unavail,
    Success(Host),
}

/// The IPv4 addresses among these.
pub open spec fn v4_of(addrs: Seq<IpAddr>) -> Seq<[u8; 4]>
    decreases addrs.len(),
{
    if addrs.len() == 0 {
        seq![]
    } else {
        match addrs.last() {
            IpAddr::V4(a) => v4_of(addrs.drop_last()).push(a),
            IpAddr::V6(_) => v4_of(addrs.drop_last()),
        }
    }
}

/// The IPv6 addresses among these.
pub open spec fn v6_of(addrs: Seq<IpAddr>) -> Seq<[u8; 16]>
    decreases addrs.len(),
{
    if addrs.len() == 0 {
        seq![]
    } else {
        match addrs.last() {
            IpAddr::V4(_) => v6_of(addrs.drop_last()),
            IpAddr::V6(a) => v6_of(addrs.drop_last()).push(a),
        }
    }
}

/// Whether these are the addresses to answer with: those of the family asked
/// for, and where none is asked for, the IPv4 addresses or else the IPv6
/// addresses; and never an empty list.
pub open spec fn answers_family(
    addrs: Seq<IpAddr>,
    family: AddressFamily,
    r: Option<Addresses>,
) -> bool {
    let v4 = family != AddressFamily::IPv6 && v4_of(addrs).len() > 0;
    let v6 = family != AddressFamily::IPv4 && v6_of(addrs).len() > 0;
    match r {
        Some(Addresses::V4(list)) => v4 && list@ == v4_of(addrs),
        Some(Addresses::V6(list)) => !v4 && v6 && list@ == v6_of(addrs),
        None => !v4 && !v6,
    }
}

/// The addresses to answer with, if there are any.
pub fn filter_addrs(addrs: &[IpAddr], family: AddressFamily) -> (r: Option<Addresses>)
    ensures
        answers_family(addrs@, family, r),
{
    let mut v4: Vec<[u8; 4]> = Vec::new();
    let mut v6: Vec<[u8; 16]> = Vec::new();
    assert(v4_of(addrs@.take(0)) =~= seq![] && v6_of(addrs@.take(0)) =~= seq![]);
    for i in 0..addrs.len()
        invariant
            v4@ == v4_of(addrs@.take(i as int)),
            v6@ == v6_of(addrs@.take(i as int)),
    {
        assert(addrs@.take(i + 1).drop_last() =~= addrs@.take(i as int));
        match addrs[i] {
            IpAddr::V4(a) => {
                v4.push(a);
            },
            IpAddr::V6(a) => {
                v6.push(a);
            },
        }
    }
    assert(addrs@.take(addrs@.len() as int) =~= addrs@);
    match family {
        AddressFamily::IPv4 => {
            if v4.len() == 0 {
                None
            } else {
                Some(Addresses::V4(v4))
            }
        },
        AddressFamily::IPv6 => {
            if v6.len() == 0 {
                None
            } else {
                Some(Addresses::V6(v6))
            }
        },
        AddressFamily::Unspecified => {
            if v4.len() != 0 {
                Some(Addresses::V4(v4))
            } else if v6.len() != 0 {
                Some(Addresses::V6(v6))
            } else {
                None
            }
        },
    }
}

/// Whether this is the answer for glibc to a lookup of `name`, given the
/// daemon's response, if there is one.
pub open spec fn answers_lookup(
    name: Seq<char>,
    family: AddressFamily,
    response: Option<ResolveResponse>,
    answer: Answer,
) -> bool {
    match response {
        None => answer is Unavail,
        Some(ResolveResponse::Denied { .. }) => answer is NotFound,
        Some(ResolveResponse::PassThrough) => answer is Unavail,
        Some(ResolveResponse::Resolved { addresses }) => match answer {
            Answer::Success(host) => {
                &&& host.name@ == name
                &&& host.aliases@.len() == 0
                &&& answers_family(addresses@, family, Some(host.addresses))
            },
            Answer::NotFound => answers_family(addresses@, family, None),
            Answer::Unavail => false,
        },
    }
}

/// The answer for glibc to a lookup of `name`, given the daemon's response,
/// or `None` when the daemon cannot be reached.
pub fn get_host_by_name(
    name: &str,
    family: AddressFamily,
    response: Option<ResolveResponse>,
) -> (r: Answer)
    ensures
        answers_lookup(name@, family, response, r),
{
    match response {
        None => Answer::Unavail,
        Some(ResolveResponse::Denied { .. }) => Answer::NotFound,
        Some(ResolveResponse::PassThrough) => Answer::Unavail,
        Some(ResolveResponse::Resolved { addresses }) => match filter_addrs(&addresses, family) {
            Some(found) => Answer::Success(
                Host { name: name.to_owned(), addresses: found, aliases: Vec::new() },
            ),
            None => Answer::NotFound,
        },
    }
}

/// There is no enumeration of hosts.
pub fn get_all_entries() -> (r: Answer)
    ensures
        r is NotFound,
{
    Answer::NotFound
}

/// There are no reverse lookups.
pub fn get_host_by_addr(_addr: &IpAddr) -> (r: Answer)
    ensures
        r is NotFound,
{
    Answer::NotFound
}

/// A lookup succeeds only with at least one address.
pub proof fn law_success_has_addresses(
    name: Seq<char>,
    family: AddressFamily,
    response: Option<ResolveResponse>,
    host: Host,
)
    requires
        answers_lookup(name, family, response, Answer::Success(host)),
    ensures
        match host.addresses {
            Addresses::V4(list) => list@.len() > 0 && family != AddressFamily::IPv6,
            Addresses::V6(list) => list@.len() > 0 && family != AddressFamily::IPv4,
        },
{
}

/// The next source is asked exactly when the daemon has no opinion or cannot
/// be reached.
pub proof fn law_next_source_is_asked(
    name: Seq<char>,
    family: AddressFamily,
    response: Option<ResolveResponse>,
    answer: Answer,
)
    requires
        answers_lookup(name, family, response, answer),
    ensures
        answer is Unavail <==> response is None || response->0 is PassThrough,
{
}

/// The addresses of a family keep their order, and each address counts for its
/// own family only.
pub proof fn law_families_are_kept_apart(addrs: Seq<IpAddr>, four: [u8; 4], six: [u8; 16])
    ensures
        v4_of(seq![]) == Seq::<[u8; 4]>::empty(),
        v6_of(seq![]) == Seq::<[u8; 16]>::empty(),
        v4_of(addrs.push(IpAddr::V4(four))) == v4_of(addrs).push(four),
        v6_of(addrs.push(IpAddr::V4(four))) == v6_of(addrs),
        v4_of(addrs.push(IpAddr::V6(six))) == v4_of(addrs),
        v6_of(addrs.push(IpAddr::V6(six))) == v6_of(addrs).push(six),
{
    assert(addrs.push(IpAddr::V4(four)).drop_last() =~= addrs);
    assert(addrs.push(IpAddr::V6(six)).drop_last() =~= addrs);
}

/// A lookup of one family gives all addresses of that family, in order, and
/// none of the other; a lookup of any family gives the IPv4 addresses, and the
/// IPv6 addresses where there are none. Without an address nothing is given.
pub proof fn law_addresses_of_the_family(
    addrs: Seq<IpAddr>,
    family: AddressFamily,
    r: Option<Addresses>,
)
    requires
        answers_family(addrs, family, r),
    ensures
        family == AddressFamily::IPv4 ==> match r {
            Some(Addresses::V4(list)) => list@ == v4_of(addrs) && list@.len() > 0,
            Some(Addresses::V6(_)) => false,
            None => v4_of(addrs).len() == 0,
        },
        family == AddressFamily::IPv6 ==> match r {
            Some(Addresses::V6(list)) => list@ == v6_of(addrs) && list@.len() > 0,
            Some(Addresses::V4(_)) => false,
            None => v6_of(addrs).len() == 0,
        },
        family == AddressFamily::Unspecified ==> match r {
            Some(Addresses::V4(list)) => list@ == v4_of(addrs) && list@.len() > 0,
            Some(Addresses::V6(list)) => list@ == v6_of(addrs) && list@.len() > 0 && v4_of(
                addrs,
            ).len() == 0,
            None => addrs.len() == 0,
        },
{
    lemma_every_address_counts(addrs);
}

proof fn lemma_every_address_counts(addrs: Seq<IpAddr>)
    ensures
        v4_of(addrs).len() + v6_of(addrs).len() == addrs.len(),
    decreases addrs.len(),
{
    if addrs.len() > 0 {
        lemma_every_address_counts(addrs.drop_last());
    }
}

/// What glibc is told goes by the daemon's response: a denial is "not found"
/// whatever the reason, no opinion and no daemon are "unavailable", and
/// addresses are given under the name that was asked for, without aliases.
pub proof fn law_answers_follow_the_response(
    name: Seq<char>,
    family: AddressFamily,
    response: Option<ResolveResponse>,
    answer: Answer,
)
    requires
        answers_lookup(name, family, response, answer),
    ensures
        response is None ==> answer is Unavail,
        response matches Some(ResolveResponse::Denied { .. }) ==> answer is NotFound,
        response matches Some(ResolveResponse::PassThrough) ==> answer is Unavail,
        response matches Some(ResolveResponse::Resolved { addresses }) ==> match answer {
            Answer::Success(host) => {
                &&& host.name@ == name
                &&& host.aliases@.len() == 0
                &&& answers_family(addresses@, family, Some(host.addresses))
            },
            Answer::NotFound => answers_family(addresses@, family, None),
            Answer::Unavail => false,
        },
{
}

} // verus!
