//! The daemon's own answers for allowed names.
use crate::addr::IpAddr;
use crate::text::{chars_of, same_text};
use vstd::prelude::*;

verus! {

/// The addresses that the daemon knows for a name without asking anyone.
pub open spec fn own_records(hostname: Seq<char>) -> Seq<IpAddr> {
    if hostname == "example.local"@ {
        seq![IpAddr::V4([10u8, 0u8, 0u8, 1u8])]
    } else {
        seq![]
    }
}

/// The addresses that the daemon knows for a name without asking anyone.
/// When there are none, the name goes to the next resolver in line.
pub fn upstream_resolve(hostname: &str) -> (r: Vec<IpAddr>)
    ensures
        r@ == own_records(hostname@),
{
    let mut addrs: Vec<IpAddr> = Vec::new();
    if same_text(&chars_of(hostname), &chars_of("example.local")) {
        addrs.push(IpAddr::V4([10u8, 0u8, 0u8, 1u8]));
    }
    addrs
}

/// The daemon knows one name, spelt exactly `example.local`, and one address
/// for it, 10.0.0.1. It knows nothing of any other name.
pub proof fn law_one_name_is_known(hostname: Seq<char>)
    ensures
        hostname == "example.local"@ ==> own_records(hostname).len() == 1 && own_records(
            hostname,
        )[0].octets() == seq![10u8, 0, 0, 1],
        hostname != "example.local"@ ==> own_records(hostname).len() == 0,
{
    if hostname == "example.local"@ {
        assert(own_records(hostname)[0].octets() =~= seq![10u8, 0, 0, 1]);
    }
}

} // verus!
