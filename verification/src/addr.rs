//! Internet addresses.
use vstd::prelude::*;
use vstd::slice::{slice_subrange, slice_to_vec};

verus! {

/// An IP address, as its octets in network order.
#[derive(Debug, Clone, Copy, PartialEq, Eq)]
pub enum IpAddr {
    V4([u8; 4]),
    V6([u8; 16]),
}

/// An IP address and a port; with an IPv6 address also the flow information
/// and the scope, that is the interface of a link-local address.
#[derive(Debug, Clone, Copy, PartialEq, Eq)]
pub enum SocketAddr {
    V4 { ip: [u8; 4], port: u16 },
    V6 { ip: [u8; 16], port: u16, flowinfo: u32, scope_id: u32 },
}

impl SocketAddr {
    /// The IP address.
    pub open spec fn spec_ip(&self) -> IpAddr {
        match self {
            SocketAddr::V4 { ip, .. } => IpAddr::V4(*ip),
            SocketAddr::V6 { ip, .. } => IpAddr::V6(*ip),
        }
    }

    /// The port.
    pub open spec fn spec_port(&self) -> u16 {
        match self {
            SocketAddr::V4 { port, .. } => *port,
            SocketAddr::V6 { port, .. } => *port,
        }
    }

    /// An address without flow information and scope.
    pub fn new(ip: IpAddr, port: u16) -> (r: SocketAddr)
        ensures
            r == match ip {
                IpAddr::V4(ip) => SocketAddr::V4 { ip, port },
                IpAddr::V6(ip) => SocketAddr::V6 { ip, port, flowinfo: 0, scope_id: 0 },
            },
    {
        match ip {
            IpAddr::V4(ip) => SocketAddr::V4 { ip, port },
            IpAddr::V6(ip) => SocketAddr::V6 { ip, port, flowinfo: 0, scope_id: 0 },
        }
    }

    /// The IP address.
    #[verifier::when_used_as_spec(spec_ip)]
    pub fn ip(&self) -> (r: IpAddr)
        ensures
            r == self.ip(),
    {
        match self {
            SocketAddr::V4 { ip, .. } => IpAddr::V4(*ip),
            SocketAddr::V6 { ip, .. } => IpAddr::V6(*ip),
        }
    }

    /// The port.
    #[verifier::when_used_as_spec(spec_port)]
    pub fn port(&self) -> (r: u16)
        ensures
            r == self.port(),
    {
        match self {
            SocketAddr::V4 { port, .. } => *port,
            SocketAddr::V6 { port, .. } => *port,
        }
    }
}

/// Whether two sequences of octets are the same.
pub fn same_octets(a: &[u8], b: &[u8]) -> (r: bool)
    ensures
        r == (a@ == b@),
{
    if a.len() != b.len() {
        return false;
    }
    for i in 0..a.len()
        invariant
            a@.len() == b@.len(),
            forall|j: int| 0 <= j < i ==> a@[j] == b@[j],
    {
        if a[i] != b[i] {
            return false;
        }
    }
    assert(a@ =~= b@);
    true
}

fn all_zero(a: &[u8]) -> (r: bool)
    ensures
        r == (forall|i: int| 0 <= i < a@.len() ==> a@[i] == 0),
{
    for i in 0..a.len()
        invariant
            forall|j: int| 0 <= j < i ==> a@[j] == 0,
    {
        if a[i] != 0 {
            return false;
        }
    }
    true
}

impl IpAddr {
    /// The octets of the address.
    pub open spec fn octets(self) -> Seq<u8> {
        match self {
            IpAddr::V4(a) => a@,
            IpAddr::V6(a) => a@,
        }
    }

    /// `0.0.0.0` or `::`.
    pub open spec fn unspecified(self) -> bool {
        forall|i: int| 0 <= i < self.octets().len() ==> self.octets()[i] == 0
    }

    /// Whether this is an IPv4-mapped IPv6 address, `::ffff:a.b.c.d`.
    pub open spec fn mapped(self) -> bool {
        &&& self is V6
        &&& forall|i: int| 0 <= i < 10 ==> self.octets()[i] == 0
        &&& self.octets()[10] == 0xff
        &&& self.octets()[11] == 0xff
    }

    /// The octets that identify the host: those of the IPv4 address that an
    /// IPv4-mapped address stands for, and else the address's own.
    pub open spec fn host(self) -> Seq<u8> {
        if self.mapped() {
            self.octets().skip(12)
        } else {
            self.octets()
        }
    }

    /// Whether this is an IPv4 address.
    pub fn is_ipv4(&self) -> (r: bool)
        ensures
            r == (self is V4),
    {
        match self {
            IpAddr::V4(_) => true,
            IpAddr::V6(_) => false,
        }
    }

    /// Whether this is an IPv6 address.
    pub fn is_ipv6(&self) -> (r: bool)
        ensures
            r == (self is V6),
    {
        !self.is_ipv4()
    }

    /// The octets of the address.
    pub fn bytes(&self) -> (r: Vec<u8>)
        ensures
            r@ == self.octets(),
    {
        match self {
            IpAddr::V4(a) => slice_to_vec(a),
            IpAddr::V6(a) => slice_to_vec(a),
        }
    }

    /// Whether two addresses are the same.
    pub fn same(&self, other: &IpAddr) -> (r: bool)
        ensures
            r == (*self == *other),
    {
        match (self, other) {
            (IpAddr::V4(a), IpAddr::V4(b)) => {
                let r = same_octets(a, b);
                assert(a@ == b@ ==> *a =~= *b);
                r
            },
            (IpAddr::V6(a), IpAddr::V6(b)) => {
                let r = same_octets(a, b);
                assert(a@ == b@ ==> *a =~= *b);
                r
            },
            _ => false,
        }
    }

    /// The octets that identify the host.
    pub fn host_bytes(&self) -> (r: Vec<u8>)
        ensures
            r@ == self.host(),
    {
        match self {
            IpAddr::V4(_) => self.bytes(),
            IpAddr::V6(a) => {
                let s: &[u8] = a;
                let prefix = slice_subrange(s, 0, 10);
                assert(forall|i: int| 0 <= i < 10 ==> #[trigger] prefix@[i] == self.octets()[i]);
                assert(forall|i: int| 0 <= i < 10 ==> prefix@[i] == #[trigger] self.octets()[i]);
                if all_zero(prefix) && s[10] == 0xff && s[11] == 0xff {
                    let last = slice_subrange(s, 12, 16);
                    assert(last@ =~= self.octets().skip(12));
                    slice_to_vec(last)
                } else {
                    self.bytes()
                }
            },
        }
    }

    /// Whether the address is `0.0.0.0` or `::`.
    pub fn is_unspecified(&self) -> (r: bool)
        ensures
            r == self.unspecified(),
    {
        all_zero(&self.bytes())
    }
}

/// An IPv4-mapped IPv6 address is the same host as the IPv4 address in it.
pub proof fn law_mapped_addresses_are_the_same_host(four: IpAddr, six: IpAddr)
    requires
        four is V4,
        six.mapped(),
        six.octets().skip(12) == four.octets(),
    ensures
        four.host() == six.host(),
{
}

/// An IPv4 address is its four octets and an IPv6 address its sixteen. The
/// host of an address is the address itself, unless that is ten zeros, twice
/// 255 and four octets: then it is those four.
pub proof fn law_hosts(four: [u8; 4], six: [u8; 16])
    ensures
        IpAddr::V4(four).octets() == four@,
        IpAddr::V6(six).octets() == six@,
        IpAddr::V4(four).host() == four@,
        six@.take(12) == seq![0u8, 0, 0, 0, 0, 0, 0, 0, 0, 0, 255, 255] ==> IpAddr::V6(six).host()
            == six@.skip(12),
        six@.take(12) != seq![0u8, 0, 0, 0, 0, 0, 0, 0, 0, 0, 255, 255] ==> IpAddr::V6(six).host()
            == six@,
{
    let mark = seq![0u8, 0, 0, 0, 0, 0, 0, 0, 0, 0, 255, 255];
    let ip = IpAddr::V6(six);
    if six@.take(12) == mark {
        assert forall|i: int| 0 <= i < 10 implies ip.octets()[i] == 0 by {
            assert(six@.take(12)[i] == mark[i]);
        }
        assert(six@.take(12)[10] == mark[10] && six@.take(12)[11] == mark[11]);
        assert(ip.mapped());
    } else if ip.mapped() {
        assert(six@.take(12) =~= mark);
    }
}

/// Only the addresses that are all zeros are unspecified.
pub proof fn law_unspecified(four: [u8; 4], six: [u8; 16])
    ensures
        IpAddr::V4(four).unspecified() <==> four@ == seq![0u8, 0, 0, 0],
        IpAddr::V6(six).unspecified() <==> forall|i: int| 0 <= i < 16 ==> six@[i] == 0,
{
    assert(IpAddr::V4(four).octets() == four@ && IpAddr::V6(six).octets() == six@);
    if IpAddr::V4(four).unspecified() {
        assert(four@ =~= seq![0u8, 0, 0, 0]);
    }
    if four@ == seq![0u8, 0, 0, 0] {
        assert(four@[0] == 0 && four@[1] == 0 && four@[2] == 0 && four@[3] == 0);
    }
}

/// A socket address has the address and the port that it is made of; flow
/// information and scope are no part of either.
pub proof fn law_socket_addresses(
    four: [u8; 4],
    six: [u8; 16],
    port: u16,
    flowinfo: u32,
    scope_id: u32,
)
    ensures
        (SocketAddr::V4 { ip: four, port }).ip() == IpAddr::V4(four),
        (SocketAddr::V4 { ip: four, port }).port() == port,
        (SocketAddr::V6 { ip: six, port, flowinfo, scope_id }).ip() == IpAddr::V6(six),
        (SocketAddr::V6 { ip: six, port, flowinfo, scope_id }).port() == port,
{
}

} // verus!
