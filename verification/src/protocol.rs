//! The policy socket's protocol: a request and a response for each line.
use crate::addr::IpAddr;
use vstd::prelude::*;

verus! {

/// The socket that the daemon and the NSS module agree on, unless another
/// path is chosen when they are built.
pub const DEFAULT_SOCKET_PATH: &'static str = "/run/deezns/resolve.sock";

/// A lookup.
#[derive(Debug, Clone, PartialEq, Eq)]
pub struct ResolveRequest {
    pub hostname: String,
}

/// The daemon's verdict on a lookup.
#[derive(Debug, Clone, PartialEq, Eq)]
pub enum ResolveResponse {
    /// Authoritatively denied: stops the NSS chain.
    Denied {
        /// Why the name was denied.
        reason: String,
    },
    /// No opinion: the next source in line is asked.
    PassThrough,
    /// The daemon resolved the name.
    Resolved { addresses: Vec<IpAddr> },
}

} // verus!
