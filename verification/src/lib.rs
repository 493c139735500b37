//! A per-user DNS policy: CEL rules over the name that is asked for and the
//! process that asks, blocklists, and the decisions of the three front-ends
//! (policy socket, nscd protocol and DNS) that apply it.
pub mod addr;
pub mod blocklist;
pub mod cel;
pub mod dns;
pub mod identify;
pub mod limits;
pub mod nscd;
pub mod nss;
pub mod plain;
pub mod policy;
pub mod protocol;
pub mod relay;
pub mod session;
pub mod text;
pub mod upstream;
pub mod wire;
