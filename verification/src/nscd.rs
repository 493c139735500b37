//! The nscd front-end.
//!
//! It takes nscd's place on the socket that glibc's client connects to:
//! host requests are judged by the policy with the credentials of the process
//! that connected, and everything else goes, byte for byte, to the real nscd.
//!
//! The protocol is glibc's nscd protocol, version 2: a header of three words
//! (version, type and key length, in the machine's byte order) and the key,
//! one request per connection; the reply is a header that depends on the
//! type, followed by data.
//!
//! For a host request, a reply with `found == -1` and a closed connection
//! both tell glibc to do without nscd for a while. A denial is therefore
//! `found == 0` with `HOST_NOT_FOUND`, and an nscd that cannot be reached
//! becomes `found == 0` with `TRY_AGAIN`.
use crate::addr::IpAddr;
use crate::policy;
use crate::policy::{Caller, NscdFrontendConfig, PolicyEngine, PolicyVerdict};
use crate::text;
use crate::text::{from_utf8, push_decimal, push_decimal_int};
use crate::upstream;
use crate::upstream::upstream_resolve;
use crate::wire;
use crate::wire::{native_order, push_words, read_word, ByteOrder};
use std::sync::Arc;
use vstd::prelude::*;
use vstd::slice::{slice_subrange, slice_to_vec};

verus! {

/// The protocol version.
pub const VERSION: i32 = 2;

/// The longest key that nscd accepts.
pub const MAX_KEY_LEN: usize = 1024;

/// The size of a request header.
pub const HEADER_LEN: usize = 12;

/// The name does not exist.
pub const HOST_NOT_FOUND: i32 = 1;

/// A temporary failure.
pub const TRY_AGAIN: i32 = 2;

/// The name exists, without an address of the family asked for.
pub const NO_DATA: i32 = 4;

/// The address family of IPv4.
pub const AF_INET: i32 = 2;

/// The address family of IPv6.
pub const AF_INET6: i32 = 10;

/// The kinds of request, in the order of their numbers.
#[derive(Debug, Clone, Copy, PartialEq, Eq, Structural)]
pub enum RequestType {
    GetPwByName,
    GetPwByUid,
    GetGrByName,
    GetGrByGid,
    GetHostByName,
    GetHostByNameV6,
    GetHostByAddr,
    GetHostByAddrV6,
    Shutdown,
    GetStat,
    Invalidate,
    GetFdPw,
    GetFdGr,
    GetFdHst,
    GetAi,
    InitGroups,
    GetServByName,
    GetServByPort,
    GetFdServ,
    GetNetGrEnt,
    InNetGr,
    GetFdNetGr,
}

/// The kind of request with this number.
pub open spec fn type_numbered(n: int) -> Option<RequestType> {
    if n == 0 {
        Some(RequestType::GetPwByName)
    } else if n == 1 {
        Some(RequestType::GetPwByUid)
    } else if n == 2 {
        Some(RequestType::GetGrByName)
    } else if n == 3 {
        Some(RequestType::GetGrByGid)
    } else if n == 4 {
        Some(RequestType::GetHostByName)
    } else if n == 5 {
        Some(RequestType::GetHostByNameV6)
    } else if n == 6 {
        Some(RequestType::GetHostByAddr)
    } else if n == 7 {
        Some(RequestType::GetHostByAddrV6)
    } else if n == 8 {
        Some(RequestType::Shutdown)
    } else if n == 9 {
        Some(RequestType::GetStat)
    } else if n == 10 {
        Some(RequestType::Invalidate)
    } else if n == 11 {
        Some(RequestType::GetFdPw)
    } else if n == 12 {
        Some(RequestType::GetFdGr)
    } else if n == 13 {
        Some(RequestType::GetFdHst)
    } else if n == 14 {
        Some(RequestType::GetAi)
    } else if n == 15 {
        Some(RequestType::InitGroups)
    } else if n == 16 {
        Some(RequestType::GetServByName)
    } else if n == 17 {
        Some(RequestType::GetServByPort)
    } else if n == 18 {
        Some(RequestType::GetFdServ)
    } else if n == 19 {
        Some(RequestType::GetNetGrEnt)
    } else if n == 20 {
        Some(RequestType::InNetGr)
    } else if n == 21 {
        Some(RequestType::GetFdNetGr)
    } else {
        None
    }
}

impl RequestType {
    /// The number of a kind of request.
    pub open spec fn number(self) -> int {
        match self {
            RequestType::GetPwByName => 0,
            RequestType::GetPwByUid => 1,
            RequestType::GetGrByName => 2,
            RequestType::GetGrByGid => 3,
            RequestType::GetHostByName => 4,
            RequestType::GetHostByNameV6 => 5,
            RequestType::GetHostByAddr => 6,
            RequestType::GetHostByAddrV6 => 7,
            RequestType::Shutdown => 8,
            RequestType::GetStat => 9,
            RequestType::Invalidate => 10,
            RequestType::GetFdPw => 11,
            RequestType::GetFdGr => 12,
            RequestType::GetFdHst => 13,
            RequestType::GetAi => 14,
            RequestType::InitGroups => 15,
            RequestType::GetServByName => 16,
            RequestType::GetServByPort => 17,
            RequestType::GetFdServ => 18,
            RequestType::GetNetGrEnt => 19,
            RequestType::InNetGr => 20,
            RequestType::GetFdNetGr => 21,
        }
    }

    /// Whether the key is a host name that the policy applies to. Reverse
    /// lookups carry an address and are forwarded untouched.
    pub open spec fn host_lookup(self) -> bool {
        ||| self == RequestType::GetHostByName
        ||| self == RequestType::GetHostByNameV6
        ||| self == RequestType::GetAi
    }

    /// The kind of request with this number, if there is one.
    pub fn from_i32(value: i32) -> (r: Option<RequestType>)
        ensures
            r == type_numbered(value as int),
    {
        match value {
            0 => Some(RequestType::GetPwByName),
            1 => Some(RequestType::GetPwByUid),
            2 => Some(RequestType::GetGrByName),
            3 => Some(RequestType::GetGrByGid),
            4 => Some(RequestType::GetHostByName),
            5 => Some(RequestType::GetHostByNameV6),
            6 => Some(RequestType::GetHostByAddr),
            7 => Some(RequestType::GetHostByAddrV6),
            8 => Some(RequestType::Shutdown),
            9 => Some(RequestType::GetStat),
            10 => Some(RequestType::Invalidate),
            11 => Some(RequestType::GetFdPw),
            12 => Some(RequestType::GetFdGr),
            13 => Some(RequestType::GetFdHst),
            14 => Some(RequestType::GetAi),
            15 => Some(RequestType::InitGroups),
            16 => Some(RequestType::GetServByName),
            17 => Some(RequestType::GetServByPort),
            18 => Some(RequestType::GetFdServ),
            19 => Some(RequestType::GetNetGrEnt),
            20 => Some(RequestType::InNetGr),
            21 => Some(RequestType::GetFdNetGr),
            _ => None,
        }
    }

    /// The number of a kind of request.
    pub fn as_i32(self) -> (r: i32)
        ensures
            r == self.number(),
    {
        match self {
            RequestType::GetPwByName => 0,
            RequestType::GetPwByUid => 1,
            RequestType::GetGrByName => 2,
            RequestType::GetGrByGid => 3,
            RequestType::GetHostByName => 4,
            RequestType::GetHostByNameV6 => 5,
            RequestType::GetHostByAddr => 6,
            RequestType::GetHostByAddrV6 => 7,
            RequestType::Shutdown => 8,
            RequestType::GetStat => 9,
            RequestType::Invalidate => 10,
            RequestType::GetFdPw => 11,
            RequestType::GetFdGr => 12,
            RequestType::GetFdHst => 13,
            RequestType::GetAi => 14,
            RequestType::InitGroups => 15,
            RequestType::GetServByName => 16,
            RequestType::GetServByPort => 17,
            RequestType::GetFdServ => 18,
            RequestType::GetNetGrEnt => 19,
            RequestType::InNetGr => 20,
            RequestType::GetFdNetGr => 21,
        }
    }

    /// Whether the key is a host name that the policy applies to.
    pub fn is_host_lookup(self) -> (r: bool)
        ensures
            r == self.host_lookup(),
    {
        match self {
            RequestType::GetHostByName | RequestType::GetHostByNameV6 | RequestType::GetAi => true,
            _ => false,
        }
    }
}

/// The kinds of request and the numbers from 0 to 21 correspond to each
/// other.
pub proof fn law_types_round_trip(ty: RequestType, n: int)
    ensures
        type_numbered(ty.number()) == Some(ty),
        type_numbered(n) matches Some(t) ==> t.number() == n,
        type_numbered(n) is Some <==> 0 <= n < 22,
{
}

// ---------------------------------------------------------------------------
// Requests
// ---------------------------------------------------------------------------

/// A request: parsed enough to route it, and verbatim so that it can be
/// forwarded.
#[derive(Debug, Clone, PartialEq, Eq)]
pub struct Request {
    pub ty: RequestType,
    pub key: Vec<u8>,
    pub raw: Vec<u8>,
}

/// A request on the wire.
pub open spec fn request_bytes(order: ByteOrder, ty: RequestType, key: Seq<u8>) -> Seq<u8> {
    wire::words_bytes(order, seq![VERSION, ty.number() as i32, key.len() as i32]) + key
}

/// What a message is: a kind of request and its key, or why it is none.
pub open spec fn parsed_request(order: ByteOrder, bytes: Seq<u8>) -> Result<
    (RequestType, Seq<u8>),
    Seq<char>,
> {
    let version = wire::word_at(order, bytes, 0);
    let ty = wire::word_at(order, bytes, 4);
    let key_len = wire::word_at(order, bytes, 8);
    if bytes.len() < HEADER_LEN {
        Err("request too short: "@ + text::decimal(bytes.len()) + " bytes"@)
    } else if version != VERSION {
        Err("unsupported protocol version "@ + text::decimal_int(version as int))
    } else if type_numbered(ty as int) is None {
        Err("unknown request type "@ + text::decimal_int(ty as int))
    } else if key_len < 0 {
        Err("negative key length"@)
    } else if key_len > MAX_KEY_LEN {
        Err(
            "key length "@ + text::decimal(key_len as nat) + " exceeds "@ + text::decimal(
                MAX_KEY_LEN as nat,
            ),
        )
    } else if bytes.len() != HEADER_LEN + key_len {
        Err(
            "key length "@ + text::decimal(key_len as nat) + " does not match "@ + text::decimal(
                (bytes.len() - HEADER_LEN) as nat,
            ) + " bytes of key"@,
        )
    } else {
        Ok((type_numbered(ty as int)->0, bytes.skip(HEADER_LEN as int)))
    }
}

/// Whether this is what parsing a message in this byte order comes to.
pub open spec fn parses_to(
    order: ByteOrder,
    bytes: Seq<u8>,
    r: Result<Request, String>,
) -> bool {
    match (r, parsed_request(order, bytes)) {
        (Ok(request), Ok((ty, key))) => {
            &&& request.ty == ty
            &&& request.key@ == key
            &&& request.raw@ == bytes
        },
        (Err(message), Err(why)) => message@ == why,
        _ => false,
    }
}

/// The host name in a key: without the terminating NUL, if there is one.
pub open spec fn key_name(key: Seq<u8>) -> Seq<u8> {
    if key.len() > 0 && key.last() == 0 {
        key.drop_last()
    } else {
        key
    }
}

/// The host name that a key stands for: not empty, and UTF-8.
pub open spec fn key_hostname(key: Seq<u8>) -> Option<Seq<char>> {
    let name = key_name(key);
    if name.len() > 0 && vstd::utf8::valid_utf8(name) {
        Some(vstd::utf8::decode_utf8(name))
    } else {
        None
    }
}

/// The length of the key that a header announces, unless it is negative or
/// more than nscd accepts.
pub open spec fn announced_key_len(order: ByteOrder, header: Seq<u8>) -> Option<usize> {
    let key_len = wire::word_at(order, header, 8);
    if 0 <= key_len <= MAX_KEY_LEN {
        Some(key_len as usize)
    } else {
        None
    }
}

/// The length of the key that a header announces, in the given byte order.
pub fn key_len_in(order: ByteOrder, header: &[u8]) -> (r: Option<usize>)
    requires
        header@.len() >= HEADER_LEN,
    ensures
        r == announced_key_len(order, header@),
{
    let key_len: i32 = read_word(order, header, 8);
    if key_len < 0 || key_len > MAX_KEY_LEN as i32 {
        None
    } else {
        Some(key_len as usize)
    }
}

/// The length of the key that a header announces, in the machine's byte
/// order.
pub fn key_len(header: &[u8]) -> (r: Option<usize>)
    requires
        header@.len() >= HEADER_LEN,
    ensures
        exists|order: ByteOrder| r == #[trigger] announced_key_len(order, header@),
{
    key_len_in(native_order(), header)
}

impl Request {
    /// Serialises a request as glibc's client does, in the given byte order.
    pub fn encode_in(order: ByteOrder, ty: RequestType, key: &[u8]) -> (r: Vec<u8>)
        ensures
            r@ == request_bytes(order, ty, key@),
    {
        let mut bytes: Vec<u8> = Vec::new();
        let header: [i32; 3] = [VERSION, ty.as_i32(), key.len() as i32];
        assert(header@ =~= seq![VERSION, ty.number() as i32, key@.len() as i32]);
        push_words(&mut bytes, order, &header);
        bytes.extend_from_slice(key);
        assert(bytes@ =~= request_bytes(order, ty, key@));
        bytes
    }

    /// Serialises a request as glibc's client does, in the machine's byte
    /// order.
    pub fn encode(ty: RequestType, key: &[u8]) -> (r: Vec<u8>)
        ensures
            exists|order: ByteOrder| r@ == #[trigger] request_bytes(order, ty, key@),
    {
        Self::encode_in(native_order(), ty, key)
    }

    /// Parses a complete request, in the given byte order.
    pub fn parse_in(order: ByteOrder, bytes: &[u8]) -> (r: Result<Request, String>)
        ensures
            parses_to(order, bytes@, r),
    {
        let mut message = String::new();
        if bytes.len() < HEADER_LEN {
            message.append("request too short: ");
            push_decimal(&mut message, bytes.len() as u64);
            message.append(" bytes");
            return Err(message);
        }
        let version: i32 = read_word(order, bytes, 0);
        if version != VERSION {
            message.append("unsupported protocol version ");
            push_decimal_int(&mut message, version);
            return Err(message);
        }
        let number: i32 = read_word(order, bytes, 4);
        let ty = match RequestType::from_i32(number) {
            Some(ty) => ty,
            None => {
                message.append("unknown request type ");
                push_decimal_int(&mut message, number);
                return Err(message);
            },
        };
        let key_len: i32 = read_word(order, bytes, 8);
        if key_len < 0 {
            message.append("negative key length");
            return Err(message);
        }
        if key_len > MAX_KEY_LEN as i32 {
            message.append("key length ");
            push_decimal(&mut message, key_len as u64);
            message.append(" exceeds ");
            push_decimal(&mut message, MAX_KEY_LEN as u64);
            return Err(message);
        }
        if bytes.len() != HEADER_LEN + key_len as usize {
            message.append("key length ");
            push_decimal(&mut message, key_len as u64);
            message.append(" does not match ");
            push_decimal(&mut message, (bytes.len() - HEADER_LEN) as u64);
            message.append(" bytes of key");
            return Err(message);
        }
        let key = slice_subrange(bytes, HEADER_LEN, bytes.len());
        assert(key@ =~= bytes@.skip(HEADER_LEN as int));
        Ok(Request { ty, key: slice_to_vec(key), raw: slice_to_vec(bytes) })
    }

    /// Parses a complete request, in the machine's byte order.
    pub fn parse(bytes: &[u8]) -> (r: Result<Request, String>)
        ensures
            exists|order: ByteOrder| #[trigger] parses_to(order, bytes@, r),
    {
        Self::parse_in(native_order(), bytes)
    }

    /// The key as a host name: UTF-8 with a terminating NUL, which glibc
    /// sends along.
    pub fn hostname(&self) -> (r: Option<&str>)
        ensures
            match r {
                Some(name) => key_hostname(self.key@) == Some(name@),
                None => key_hostname(self.key@) is None,
            },
    {
        let mut end: usize = self.key.len();
        if end > 0 && self.key[end - 1] == 0 {
            end -= 1;
        }
        let name = slice_subrange(&self.key, 0, end);
        assert(name@ =~= key_name(self.key@));
        if end == 0 {
            return None;
        }
        from_utf8(name)
    }
}

/// Parsing gives back what was serialised, in either byte order.
pub proof fn law_requests_round_trip(order: ByteOrder, ty: RequestType, key: Seq<u8>)
    requires
        key.len() <= MAX_KEY_LEN,
    ensures
        parsed_request(order, request_bytes(order, ty, key)) == Ok::<
            (RequestType, Seq<u8>),
            Seq<char>,
        >((ty, key)),
{
    let header = seq![VERSION, ty.number() as i32, key.len() as i32];
    wire::law_words_round_trip(order, header, key, 0);
    wire::law_words_round_trip(order, header, key, 1);
    wire::law_words_round_trip(order, header, key, 2);
    law_types_round_trip(ty, ty.number());
    assert(request_bytes(order, ty, key).skip(HEADER_LEN as int) =~= key);
}

// ---------------------------------------------------------------------------
// Replies
// ---------------------------------------------------------------------------

/// The address family of an address.
pub open spec fn family_of(addr: IpAddr) -> i32 {
    match addr {
        IpAddr::V4(_) => AF_INET,
        IpAddr::V6(_) => AF_INET6,
    }
}

/// The octets of the addresses, one address after the other.
pub open spec fn packed(addrs: Seq<IpAddr>) -> Seq<u8>
    decreases addrs.len(),
{
    if addrs.len() == 0 {
        seq![]
    } else {
        packed(addrs.drop_last()) + addrs.last().octets()
    }
}

/// The family of each address, an octet each.
pub open spec fn families(addrs: Seq<IpAddr>) -> Seq<u8> {
    addrs.map_values(|a: IpAddr| family_of(a) as u8)
}

/// The addresses of one family.
pub open spec fn of_family(addrs: Seq<IpAddr>, family: i32) -> Seq<IpAddr>
    decreases addrs.len(),
{
    if addrs.len() == 0 {
        seq![]
    } else if family_of(addrs.last()) == family {
        of_family(addrs.drop_last(), family).push(addrs.last())
    } else {
        of_family(addrs.drop_last(), family)
    }
}

/// The header of a `GETAI` reply: version, found, number of addresses, octets
/// of addresses, octets of the canonical name, and error.
pub open spec fn ai_header(
    order: ByteOrder,
    found: i32,
    count: i32,
    addrs_len: i32,
    canon_len: i32,
    error: i32,
) -> Seq<u8> {
    wire::words_bytes(order, seq![VERSION, found, count, addrs_len, canon_len, error])
}

/// A negative `GETAI` reply: a header and nothing else.
pub open spec fn ai_not_found_bytes(order: ByteOrder, error: i32) -> Seq<u8> {
    ai_header(order, 0, 0, 0, 0, error)
}

/// A positive `GETAI` reply: a header, the addresses, their families and the
/// canonical name with a terminating NUL.
pub open spec fn ai_found_bytes(order: ByteOrder, canon: Seq<char>, addrs: Seq<IpAddr>) -> Seq<u8> {
    let name = vstd::utf8::encode_utf8(canon).push(0);
    ai_header(order, 1, addrs.len() as i32, packed(addrs).len() as i32, name.len() as i32, 0)
        + packed(addrs) + families(addrs) + name
}

/// The header of a `GETHOSTBYNAME` reply: version, found, octets of the name,
/// number of aliases, family, octets of an address, number of addresses, and
/// error.
pub open spec fn hst_header(
    order: ByteOrder,
    found: i32,
    name_len: i32,
    family: i32,
    length: i32,
    count: i32,
    error: i32,
) -> Seq<u8> {
    wire::words_bytes(order, seq![VERSION, found, name_len, 0, family, length, count, error])
}

/// A negative `GETHOSTBYNAME` reply: a header and nothing else.
pub open spec fn hst_not_found_bytes(order: ByteOrder, error: i32) -> Seq<u8> {
    hst_header(order, 0, 0, (-1) as i32, (-1) as i32, 0, error)
}

/// The octets of an address of a family.
pub open spec fn address_len(family: i32) -> i32 {
    if family == AF_INET6 {
        16
    } else {
        4
    }
}

/// A positive `GETHOSTBYNAME` reply: a header, the name with a terminating
/// NUL, and the addresses.
pub open spec fn hst_found_bytes(
    order: ByteOrder,
    name: Seq<char>,
    family: i32,
    addrs: Seq<IpAddr>,
) -> Seq<u8> {
    let name = vstd::utf8::encode_utf8(name).push(0);
    hst_header(
        order,
        1,
        name.len() as i32,
        family,
        address_len(family),
        addrs.len() as i32,
        0,
    ) + name + packed(addrs)
}

/// A negative reply to a host request.
pub open spec fn not_found_bytes(order: ByteOrder, ty: RequestType, error: i32) -> Seq<u8> {
    if ty == RequestType::GetAi {
        ai_not_found_bytes(order, error)
    } else {
        hst_not_found_bytes(order, error)
    }
}

/// A `GETHOSTBYNAME` reply with the addresses of one family, which says so
/// when there are none.
pub open spec fn hst_bytes(
    order: ByteOrder,
    name: Seq<char>,
    family: i32,
    addrs: Seq<IpAddr>,
) -> Seq<u8> {
    if of_family(addrs, family).len() == 0 {
        hst_not_found_bytes(order, NO_DATA)
    } else {
        hst_found_bytes(order, name, family, of_family(addrs, family))
    }
}

/// The reply to a host request that the daemon has addresses for.
pub open spec fn found_bytes(
    order: ByteOrder,
    ty: RequestType,
    name: Seq<char>,
    addrs: Seq<IpAddr>,
) -> Seq<u8> {
    if ty == RequestType::GetAi {
        ai_found_bytes(order, name, addrs)
    } else if ty == RequestType::GetHostByName {
        hst_bytes(order, name, AF_INET, addrs)
    } else {
        hst_bytes(order, name, AF_INET6, addrs)
    }
}

fn address_family(addr: &IpAddr) -> (r: i32)
    ensures
        r == family_of(*addr),
{
    match addr {
        IpAddr::V4(_) => AF_INET,
        IpAddr::V6(_) => AF_INET6,
    }
}

/// Appends the octets of the addresses.
fn push_addresses(buf: &mut Vec<u8>, addrs: &[IpAddr])
    ensures
        final(buf)@ == old(buf)@ + packed(addrs@),
{
    assert(packed(addrs@.take(0)) =~= seq![]);
    for i in 0..addrs.len()
        invariant
            buf@ =~= old(buf)@ + packed(addrs@.take(i as int)),
    {
        let mut octets = addrs[i].bytes();
        buf.append(&mut octets);
        assert(addrs@.take(i + 1).drop_last() =~= addrs@.take(i as int));
        assert(packed(addrs@.take(i + 1)) == packed(addrs@.take(i as int)) + addrs@[i as int].octets());
    }
    assert(addrs@.take(addrs@.len() as int) =~= addrs@);
}

/// A `GETAI` reply in the given byte order.
fn ai_reply(order: ByteOrder, found: bool, error: i32, canon: &str, addrs: &[IpAddr]) -> (r: Vec<u8>)
    requires
        !found ==> addrs@.len() == 0,
        vstd::utf8::encode_utf8(canon@).len() < usize::MAX,
    ensures
        !found ==> r@ == ai_not_found_bytes(order, error),
        found && error == 0 ==> r@ == ai_found_bytes(order, canon@, addrs@),
{
    let mut octets: Vec<u8> = Vec::new();
    push_addresses(&mut octets, addrs);
    assert(octets@ =~= packed(addrs@));
    let canon_len: usize = if found {
        canon.as_bytes().len() + 1
    } else {
        0
    };
    let mut buf: Vec<u8> = Vec::new();
    let flag: i32 = if found {
        1
    } else {
        0
    };
    let words: [i32; 6] = [
        VERSION,
        flag,
        addrs.len() as i32,
        octets.len() as i32,
        canon_len as i32,
        error,
    ];
    assert(words@ =~= seq![
        VERSION,
        flag,
        addrs@.len() as i32,
        packed(addrs@).len() as i32,
        canon_len as i32,
        error,
    ]);
    push_words(&mut buf, order, &words);
    if found {
        let ghost header = buf@;
        buf.append(&mut octets);
        for i in 0..addrs.len()
            invariant
                buf@ =~= header + packed(addrs@) + families(addrs@).take(i as int),
        {
            buf.push(address_family(&addrs[i]) as u8);
            assert(families(addrs@).take(i + 1) =~= families(addrs@).take(i as int).push(
                families(addrs@)[i as int],
            ));
        }
        assert(families(addrs@).take(addrs@.len() as int) =~= families(addrs@));
        buf.extend_from_slice(canon.as_bytes());
        buf.push(0);
        assert(error == 0 ==> buf@ =~= ai_found_bytes(order, canon@, addrs@));
    } else {
        assert(buf@ =~= ai_not_found_bytes(order, error));
    }
    buf
}

/// A negative `GETAI` reply in the given byte order.
pub fn ai_not_found_in(order: ByteOrder, error: i32) -> (r: Vec<u8>)
    ensures
        r@ == ai_not_found_bytes(order, error),
{
    proof {
        reveal_strlit("");
        assert(""@ =~= Seq::<char>::empty());
        assert(vstd::utf8::encode_utf8(""@).len() == 0);
    }
    let none: Vec<IpAddr> = Vec::new();
    ai_reply(order, false, error, "", &none)
}

/// A negative `GETAI` reply, which glibc reports to the caller as `error`.
pub fn ai_not_found(error: i32) -> (r: Vec<u8>)
    ensures
        exists|order: ByteOrder| r@ == #[trigger] ai_not_found_bytes(order, error),
{
    ai_not_found_in(native_order(), error)
}

/// A `GETAI` reply with addresses, in the given byte order.
pub fn ai_found_in(order: ByteOrder, canon: &str, addrs: &[IpAddr]) -> (r: Vec<u8>)
    requires
        vstd::utf8::encode_utf8(canon@).len() < usize::MAX,
    ensures
        r@ == ai_found_bytes(order, canon@, addrs@),
{
    ai_reply(order, true, 0, canon, addrs)
}

/// A `GETAI` reply with addresses.
pub fn ai_found(canon: &str, addrs: &[IpAddr]) -> (r: Vec<u8>)
    requires
        vstd::utf8::encode_utf8(canon@).len() < usize::MAX,
    ensures
        exists|order: ByteOrder| r@ == #[trigger] ai_found_bytes(order, canon@, addrs@),
{
    ai_found_in(native_order(), canon, addrs)
}

fn hst_reply(
    order: ByteOrder,
    found: bool,
    error: i32,
    name: &str,
    family: i32,
    addrs: &[IpAddr],
) -> (r: Vec<u8>)
    requires
        vstd::utf8::encode_utf8(name@).len() < i32::MAX,
    ensures
        !found ==> r@ == hst_not_found_bytes(order, error),
        found && error == 0 ==> r@ == hst_found_bytes(order, name@, family, addrs@),
{
    let length: i32 = if family == AF_INET6 {
        16
    } else {
        4
    };
    let mut buf: Vec<u8> = Vec::new();
    if found {
        let name_len: i32 = name.as_bytes().len() as i32 + 1;
        let words: [i32; 8] = [VERSION, 1, name_len, 0, family, length, addrs.len() as i32, error];
        assert(words@ =~= seq![
            VERSION,
            1,
            name_len,
            0,
            family,
            length,
            addrs@.len() as i32,
            error,
        ]);
        push_words(&mut buf, order, &words);
        buf.extend_from_slice(name.as_bytes());
        buf.push(0);
        push_addresses(&mut buf, addrs);
        assert(error == 0 ==> buf@ =~= hst_found_bytes(order, name@, family, addrs@));
    } else {
        let words: [i32; 8] = [VERSION, 0, 0, 0, -1, -1, 0, error];
        assert(words@ =~= seq![VERSION, 0, 0, 0, (-1) as i32, (-1) as i32, 0, error]);
        push_words(&mut buf, order, &words);
        assert(buf@ =~= hst_not_found_bytes(order, error));
    }
    buf
}

/// A negative `GETHOSTBYNAME` reply in the given byte order.
pub fn hst_not_found_in(order: ByteOrder, error: i32) -> (r: Vec<u8>)
    ensures
        r@ == hst_not_found_bytes(order, error),
{
    proof {
        reveal_strlit("");
        assert(""@ =~= Seq::<char>::empty());
        assert(vstd::utf8::encode_utf8(""@).len() == 0);
    }
    let none: Vec<IpAddr> = Vec::new();
    hst_reply(order, false, error, "", -1, &none)
}

/// A negative `GETHOSTBYNAME` or `GETHOSTBYNAMEv6` reply.
pub fn hst_not_found(error: i32) -> (r: Vec<u8>)
    ensures
        exists|order: ByteOrder| r@ == #[trigger] hst_not_found_bytes(order, error),
{
    hst_not_found_in(native_order(), error)
}

/// Whether this is the positive reply with the addresses of one family, which
/// there is only if there are any.
pub open spec fn hst_found_is(
    order: ByteOrder,
    name: Seq<char>,
    family: i32,
    addrs: Seq<IpAddr>,
    r: Option<Vec<u8>>,
) -> bool {
    match r {
        Some(bytes) => {
            &&& of_family(addrs, family).len() > 0
            &&& bytes@ == hst_found_bytes(order, name, family, of_family(addrs, family))
        },
        None => of_family(addrs, family).len() == 0,
    }
}

/// A positive `GETHOSTBYNAME` (`AF_INET`) or `GETHOSTBYNAMEv6` (`AF_INET6`)
/// reply with the addresses of that family, if there are any, in the given
/// byte order.
pub fn hst_found_in(order: ByteOrder, name: &str, family: i32, addrs: &[IpAddr]) -> (r: Option<
    Vec<u8>,
>)
    requires
        vstd::utf8::encode_utf8(name@).len() < i32::MAX,
    ensures
        hst_found_is(order, name@, family, addrs@, r),
{
    let mut matching: Vec<IpAddr> = Vec::new();
    assert(of_family(addrs@.take(0), family) =~= seq![]);
    for i in 0..addrs.len()
        invariant
            matching@ == of_family(addrs@.take(i as int), family),
    {
        assert(addrs@.take(i + 1).drop_last() =~= addrs@.take(i as int));
        if address_family(&addrs[i]) == family {
            matching.push(addrs[i]);
        }
    }
    assert(addrs@.take(addrs@.len() as int) =~= addrs@);
    if matching.len() == 0 {
        None
    } else {
        Some(hst_reply(order, true, 0, name, family, &matching))
    }
}

/// A positive `GETHOSTBYNAME` (`AF_INET`) or `GETHOSTBYNAMEv6` (`AF_INET6`)
/// reply with the addresses of that family, if there are any.
pub fn hst_found(name: &str, family: i32, addrs: &[IpAddr]) -> (r: Option<Vec<u8>>)
    requires
        vstd::utf8::encode_utf8(name@).len() < i32::MAX,
    ensures
        exists|order: ByteOrder| #[trigger] hst_found_is(order, name@, family, addrs@, r),
{
    hst_found_in(native_order(), name, family, addrs)
}

/// A negative reply to a host request.
pub fn not_found_in(order: ByteOrder, ty: RequestType, error: i32) -> (r: Vec<u8>)
    ensures
        r@ == not_found_bytes(order, ty, error),
{
    match ty {
        RequestType::GetAi => ai_not_found_in(order, error),
        _ => hst_not_found_in(order, error),
    }
}

/// The reply to a host request that the daemon has addresses for.
pub fn found_in(order: ByteOrder, ty: RequestType, name: &str, addrs: &[IpAddr]) -> (r: Vec<u8>)
    requires
        vstd::utf8::encode_utf8(name@).len() < i32::MAX,
    ensures
        r@ == found_bytes(order, ty, name@, addrs@),
{
    let family: i32 = match ty {
        RequestType::GetAi => {
            return ai_found_in(order, name, addrs);
        },
        RequestType::GetHostByName => AF_INET,
        _ => AF_INET6,
    };
    match hst_found_in(order, name, family, addrs) {
        Some(bytes) => bytes,
        None => hst_not_found_in(order, NO_DATA),
    }
}

// ---------------------------------------------------------------------------
// Replies of the real nscd
// ---------------------------------------------------------------------------

/// Whether this is a complete `GETAI` reply that serves the request: it says
/// found or not found, and has the length that its header announces.
pub open spec fn complete_ai(order: ByteOrder, reply: Seq<u8>) -> bool {
    let found = wire::word_at(order, reply, 4);
    let count = wire::word_at(order, reply, 8);
    let addrs_len = wire::word_at(order, reply, 12);
    let canon_len = wire::word_at(order, reply, 16);
    &&& reply.len() >= 24
    &&& wire::word_at(order, reply, 0) == VERSION
    &&& {
        ||| found == 0 && reply.len() == 24
        ||| {
            &&& found == 1
            &&& count >= 0 && addrs_len >= 0 && canon_len >= 0
            &&& reply.len() == 24 + addrs_len + count + canon_len
        }
    }
}

/// The total of the `n` lengths from `at` on, which are not negative.
pub open spec fn total_of_lengths(
    order: ByteOrder,
    reply: Seq<u8>,
    at: int,
    n: int,
) -> Option<int>
    decreases n,
{
    if n <= 0 {
        Some(0)
    } else {
        match total_of_lengths(order, reply, at, n - 1) {
            Some(total) if wire::word_at(order, reply, at + 4 * (n - 1)) >= 0 => Some(
                total + wire::word_at(order, reply, at + 4 * (n - 1)),
            ),
            _ => None,
        }
    }
}

/// Whether this is a complete `GETHOSTBYNAME` reply that serves the request:
/// it says found or not found, and has the length that its header and the
/// lengths of the aliases announce.
pub open spec fn complete_hst(order: ByteOrder, reply: Seq<u8>) -> bool {
    let found = wire::word_at(order, reply, 4);
    let name_len = wire::word_at(order, reply, 8);
    let aliases = wire::word_at(order, reply, 12);
    let length = wire::word_at(order, reply, 20);
    let count = wire::word_at(order, reply, 24);
    let total = total_of_lengths(order, reply, 32 + name_len, aliases as int);
    &&& reply.len() >= 32
    &&& wire::word_at(order, reply, 0) == VERSION
    &&& {
        ||| found == 0 && reply.len() == 32
        ||| {
            &&& found == 1
            &&& name_len >= 0 && aliases >= 0 && length >= 0 && count >= 0
            &&& 32 + name_len + 4 * aliases <= reply.len()
            &&& total is Some
            &&& reply.len() == 32 + name_len + 4 * aliases + count * length + total->0
        }
    }
}

/// Whether this is a complete reply that serves a host request.
pub open spec fn complete_reply(order: ByteOrder, ty: RequestType, reply: Seq<u8>) -> bool {
    if ty == RequestType::GetAi {
        complete_ai(order, reply)
    } else {
        complete_hst(order, reply)
    }
}

fn is_complete_ai(order: ByteOrder, reply: &[u8]) -> (r: bool)
    ensures
        r == complete_ai(order, reply@),
{
    if reply.len() < 24 || read_word(order, reply, 0) != VERSION {
        return false;
    }
    let found: i32 = read_word(order, reply, 4);
    if found == 0 {
        return reply.len() == 24;
    }
    let count: i32 = read_word(order, reply, 8);
    let addrs_len: i32 = read_word(order, reply, 12);
    let canon_len: i32 = read_word(order, reply, 16);
    found == 1 && count >= 0 && addrs_len >= 0 && canon_len >= 0 && reply.len() as u64 == 24
        + addrs_len as u64 + count as u64 + canon_len as u64
}

fn is_complete_hst(order: ByteOrder, reply: &[u8]) -> (r: bool)
    ensures
        r == complete_hst(order, reply@),
{
    if reply.len() < 32 || read_word(order, reply, 0) != VERSION {
        return false;
    }
    let found: i32 = read_word(order, reply, 4);
    if found == 0 {
        return reply.len() == 32;
    }
    let name_len: i32 = read_word(order, reply, 8);
    let aliases: i32 = read_word(order, reply, 12);
    let length: i32 = read_word(order, reply, 20);
    let count: i32 = read_word(order, reply, 24);
    if found != 1 || name_len < 0 || aliases < 0 || length < 0 || count < 0 {
        return false;
    }
    let lengths_at: u64 = 32 + name_len as u64;
    if lengths_at + 4 * aliases as u64 > reply.len() as u64 {
        return false;
    }
    let mut total: u64 = 0;
    for i in 0..aliases
        invariant
            lengths_at == 32 + name_len,
            name_len >= 0,
            lengths_at + 4 * aliases <= reply@.len(),
            reply@.len() <= usize::MAX,
            total <= i * 0x8000_0000,
            total_of_lengths(order, reply@, lengths_at as int, i as int) == Some(total as int),
            wire::word_at(order, reply@, 4) == 1,
            name_len == wire::word_at(order, reply@, 8),
            aliases == wire::word_at(order, reply@, 12),
    {
        let alias_len: i32 = read_word(order, reply, (lengths_at + 4 * i as u64) as usize);
        if alias_len < 0 {
            proof {
                lemma_bad_length(order, reply@, lengths_at as int, i + 1, aliases as int);
            }
            return false;
        }
        total = total + alias_len as u64;
    }
    assert(0 <= count * length <= 0x7fff_ffff * 0x7fff_ffff) by (nonlinear_arith)
        requires
            0 <= count <= 0x7fff_ffff,
            0 <= length <= 0x7fff_ffff,
    ;
    reply.len() as u64 == lengths_at + 4 * aliases as u64 + count as u64 * length as u64 + total
}

/// One negative length leaves no total.
proof fn lemma_bad_length(order: ByteOrder, reply: Seq<u8>, at: int, i: int, n: int)
    requires
        0 < i <= n,
        total_of_lengths(order, reply, at, i) is None,
    ensures
        total_of_lengths(order, reply, at, n) is None,
    decreases n - i,
{
    if i < n {
        lemma_bad_length(order, reply, at, i + 1, n);
    }
}

/// Whether a reply of the real nscd to a host request is complete and serves
/// the request, in the given byte order.
pub fn is_complete_reply_in(order: ByteOrder, ty: RequestType, reply: &[u8]) -> (r: bool)
    ensures
        r == complete_reply(order, ty, reply@),
{
    match ty {
        RequestType::GetAi => is_complete_ai(order, reply),
        _ => is_complete_hst(order, reply),
    }
}

// ---------------------------------------------------------------------------
// The front-end
// ---------------------------------------------------------------------------

/// What to send back: bytes, or nothing before closing.
#[derive(Debug, PartialEq, Eq)]
pub enum Reply {
    Bytes(Vec<u8>),
    Close,
}

/// A reply, with its bytes as a sequence.
pub enum ReplyView {
    Bytes(Seq<u8>),
    Close,
}

impl View for Reply {
    type V = ReplyView;

    open spec fn view(&self) -> ReplyView {
        match self {
            Reply::Bytes(bytes) => ReplyView::Bytes(bytes@),
            Reply::Close => ReplyView::Close,
        }
    }
}

/// What becomes of a request: a reply of the front-end's own, or the request
/// is sent, as it came, to the real nscd.
#[derive(Debug, PartialEq, Eq)]
pub enum Route {
    Reply(Reply),
    Forward,
}

/// What becomes of a request, with the bytes of a reply as a sequence.
pub enum RouteView {
    Reply(ReplyView),
    Forward,
}

impl View for Route {
    type V = RouteView;

    open spec fn view(&self) -> RouteView {
        match self {
            Route::Reply(reply) => RouteView::Reply(reply@),
            Route::Forward => RouteView::Forward,
        }
    }
}

/// What becomes of a host request that the policy has decided on. A denial is
/// answered as "host not found", the daemon's own records are answered
/// directly, and everything else goes to the real nscd.
pub open spec fn judged(
    order: ByteOrder,
    ty: RequestType,
    hostname: Seq<char>,
    verdict: policy::Verdict,
) -> RouteView {
    match verdict {
        policy::Verdict::Denied(_) => RouteView::Reply(
            ReplyView::Bytes(not_found_bytes(order, ty, HOST_NOT_FOUND)),
        ),
        policy::Verdict::PassThrough => RouteView::Forward,
        policy::Verdict::Allowed => {
            let addrs = upstream::own_records(hostname);
            if addrs.len() == 0 {
                RouteView::Forward
            } else {
                RouteView::Reply(ReplyView::Bytes(found_bytes(order, ty, hostname, addrs)))
            }
        },
    }
}

/// The reply to a request that was sent to the real nscd: what came back, or,
/// when nothing did, a temporary failure for a host request and a closed
/// connection for any other.
pub open spec fn relayed(order: ByteOrder, ty: RequestType, reply: Option<Seq<u8>>) -> ReplyView {
    match reply {
        Some(bytes) => ReplyView::Bytes(bytes),
        None => {
            if ty.host_lookup() {
                ReplyView::Bytes(not_found_bytes(order, ty, TRY_AGAIN))
            } else {
                ReplyView::Close
            }
        },
    }
}

/// What came back from the real nscd, unless it is a reply to a host request
/// that is incomplete, malformed or says "not served".
pub open spec fn usable(order: ByteOrder, ty: RequestType, reply: Option<Seq<u8>>) -> Option<
    Seq<u8>,
> {
    match reply {
        Some(bytes) if ty.host_lookup() && !complete_reply(order, ty, bytes) => None,
        _ => reply,
    }
}

/// The bytes of a reply, if there is one.
pub open spec fn reply_bytes(reply: Option<Vec<u8>>) -> Option<Seq<u8>> {
    match reply {
        Some(bytes) => Some(bytes@),
        None => None,
    }
}

/// The front-end that takes nscd's place.
pub struct Frontend {
    listen: String,
    upstream: String,
    engine: Arc<PolicyEngine>,
    order: ByteOrder,
}

impl Frontend {
    /// The policy that judges host requests.
    pub closed spec fn engine(&self) -> PolicyEngine {
        *self.engine
    }

    /// The byte order of requests and replies.
    pub closed spec fn order(&self) -> ByteOrder {
        self.order
    }

    /// The path of the socket to listen on.
    pub closed spec fn listens_on(&self) -> Seq<char> {
        self.listen@
    }

    /// The path of the real nscd's socket.
    pub closed spec fn forwards_to(&self) -> Seq<char> {
        self.upstream@
    }

    /// A front-end in the given byte order.
    pub fn new_in(
        order: ByteOrder,
        config: &NscdFrontendConfig,
        engine: Arc<PolicyEngine>,
    ) -> (r: Frontend)
        ensures
            r.engine() == *engine,
            r.listens_on() == config.listen@,
            r.forwards_to() == config.upstream@,
            r.order() == order,
    {
        Frontend {
            listen: config.listen.clone(),
            upstream: config.upstream.clone(),
            engine,
            order,
        }
    }

    /// A front-end in the machine's byte order.
    pub fn new(config: &NscdFrontendConfig, engine: Arc<PolicyEngine>) -> (r: Frontend)
        ensures
            r.engine() == *engine,
            r.listens_on() == config.listen@,
            r.forwards_to() == config.upstream@,
    {
        Self::new_in(native_order(), config, engine)
    }

    /// The path of the socket to listen on.
    pub fn listen_path(&self) -> (r: &str)
        ensures
            r@ == self.listens_on(),
    {
        self.listen.as_str()
    }

    /// The path of the real nscd's socket.
    pub fn upstream_path(&self) -> (r: &str)
        ensures
            r@ == self.forwards_to(),
    {
        self.upstream.as_str()
    }

    /// Whether this may become of a request: requests other than host lookups
    /// are forwarded unjudged, a host request without a name is dropped, and
    /// any other is judged under its name.
    pub open spec fn may_route(
        &self,
        request: Request,
        caller: Caller,
        route: RouteView,
    ) -> bool {
        match key_hostname(request.key@) {
            _ if !request.ty.host_lookup() => route == RouteView::Forward,
            None => route == RouteView::Reply(ReplyView::Close),
            Some(name) => exists|verdict: policy::Verdict| #[trigger]
                self.engine().may_decide(name, caller, verdict) && route == judged(
                    self.order(),
                    request.ty,
                    name,
                    verdict,
                ),
        }
    }

    /// Whether judging a request never panics.
    pub open spec fn returns_for(&self, request: Request, caller: Caller) -> bool {
        request.ty.host_lookup() && key_hostname(request.key@) is Some ==> self.engine().returns_for(
            key_hostname(request.key@)->0,
            caller,
        )
    }

    /// What becomes of a host request that the policy has decided on.
    pub fn judge(&self, ty: RequestType, hostname: &str, verdict: &PolicyVerdict) -> (r: Route)
        requires
            vstd::utf8::encode_utf8(hostname@).len() < i32::MAX,
        ensures
            r@ == judged(self.order(), ty, hostname@, verdict@),
    {
        match verdict {
            PolicyVerdict::Denied(_) => Route::Reply(
                Reply::Bytes(not_found_in(self.order, ty, HOST_NOT_FOUND)),
            ),
            PolicyVerdict::PassThrough => Route::Forward,
            PolicyVerdict::Allowed => {
                let addrs = upstream_resolve(hostname);
                if addrs.len() == 0 {
                    Route::Forward
                } else {
                    Route::Reply(Reply::Bytes(found_in(self.order, ty, hostname, &addrs)))
                }
            },
        }
    }

    /// Decides what a request gets: an answer of the front-end's own, or the
    /// real nscd's.
    pub fn reply_for(&self, request: &Request, caller: &Caller) -> (r: Route)
        requires
            request.ty.host_lookup() ==> request.key@.len() < i32::MAX,
            self.returns_for(*request, *caller),
        ensures
            self.may_route(*request, *caller, r@),
    {
        if !request.ty.is_host_lookup() {
            return Route::Forward;
        }
        let hostname = match request.hostname() {
            Some(hostname) => hostname,
            None => {
                return Route::Reply(Reply::Close);
            },
        };
        proof {
            vstd::utf8::decode_utf8_encode_utf8(key_name(request.key@));
        }
        let verdict = self.engine.evaluate_for(hostname, caller);
        self.judge(request.ty, hostname, &verdict)
    }

    /// Decides what a request gets, if every rule of the policy keeps to the
    /// documented part of the expression language.
    pub fn reply_for_checked(&self, request: &Request, caller: &Caller) -> (r: Option<Route>)
        requires
            request.ty.host_lookup() ==> request.key@.len() < i32::MAX,
        ensures
            r is Some <==> self.engine().all_documented(),
            r matches Some(route) ==> self.may_route(*request, *caller, route@),
    {
        if self.engine.is_documented() {
            Some(self.reply_for(request, caller))
        } else {
            None
        }
    }

    /// The reply to a request that was sent to the real nscd, given what came
    /// back, byte for byte.
    pub fn forwarded(&self, ty: RequestType, reply: Option<Vec<u8>>) -> (r: Reply)
        ensures
            r@ == relayed(self.order(), ty, reply_bytes(reply)),
    {
        match reply {
            Some(bytes) => Reply::Bytes(bytes),
            None => {
                if ty.is_host_lookup() {
                    Reply::Bytes(not_found_in(self.order, ty, TRY_AGAIN))
                } else {
                    Reply::Close
                }
            },
        }
    }

    /// The reply to a request that was sent to the real nscd, given what came
    /// back: as [`Frontend::forwarded`], but a reply to a host request that
    /// is incomplete, malformed or says "not served" counts as none.
    pub fn forwarded_if_complete(&self, ty: RequestType, reply: Option<Vec<u8>>) -> (r: Reply)
        ensures
            r@ == relayed(
                self.order(),
                ty,
                usable(self.order(), ty, reply_bytes(reply)),
            ),
    {
        match reply {
            Some(bytes) => {
                if ty.is_host_lookup() && !is_complete_reply_in(self.order, ty, &bytes) {
                    self.forwarded(ty, None)
                } else {
                    self.forwarded(ty, Some(bytes))
                }
            },
            None => self.forwarded(ty, None),
        }
    }
}

// ---------------------------------------------------------------------------
// Laws
// ---------------------------------------------------------------------------

/// A negative reply is complete, and says `found == 0` with the error given,
/// never "not served".
pub proof fn law_not_found_replies(order: ByteOrder, ty: RequestType, error: i32)
    ensures
        complete_reply(order, ty, not_found_bytes(order, ty, error)),
        wire::word_at(order, not_found_bytes(order, ty, error), 4) == 0,
        wire::word_at(
            order,
            not_found_bytes(order, ty, error),
            if ty == RequestType::GetAi {
                20
            } else {
                28
            },
        ) == error,
{
    let none = Seq::<u8>::empty();
    let reply = not_found_bytes(order, ty, error);
    assert(reply + none =~= reply);
    if ty == RequestType::GetAi {
        let words = seq![VERSION, 0i32, 0i32, 0i32, 0i32, error];
        assert(reply == wire::words_bytes(order, words));
        wire::law_words_round_trip(order, words, none, 0);
        wire::law_words_round_trip(order, words, none, 1);
        wire::law_words_round_trip(order, words, none, 5);
    } else {
        let words = seq![VERSION, 0i32, 0i32, 0i32, (-1) as i32, (-1) as i32, 0i32, error];
        assert(reply == wire::words_bytes(order, words));
        wire::law_words_round_trip(order, words, none, 0);
        wire::law_words_round_trip(order, words, none, 1);
        wire::law_words_round_trip(order, words, none, 7);
    }
}

/// A denied name is answered by the front-end itself, as "host not found".
pub proof fn law_denials_are_answered(
    order: ByteOrder,
    ty: RequestType,
    hostname: Seq<char>,
    reason: Seq<char>,
)
    ensures
        judged(order, ty, hostname, policy::Verdict::Denied(reason)) == RouteView::Reply(
            ReplyView::Bytes(not_found_bytes(order, ty, HOST_NOT_FOUND)),
        ),
{
}

/// A host request with a name is never answered by closing the connection,
/// neither by the policy nor after the real nscd was asked.
pub proof fn law_host_requests_are_never_closed(
    front: &Frontend,
    request: Request,
    caller: Caller,
    route: RouteView,
    reply: Option<Seq<u8>>,
)
    requires
        request.ty.host_lookup(),
        key_hostname(request.key@) is Some,
        front.may_route(request, caller, route),
    ensures
        route != RouteView::Reply(ReplyView::Close),
        relayed(front.order(), request.ty, reply) != ReplyView::Close,
{
}

/// What a host request gets after the real nscd was asked and its reply
/// checked is a complete reply that does not say "not served".
pub proof fn law_checked_replies_are_complete(
    order: ByteOrder,
    ty: RequestType,
    reply: Option<Seq<u8>>,
)
    requires
        ty.host_lookup(),
    ensures
        match relayed(order, ty, usable(order, ty, reply)) {
            ReplyView::Bytes(bytes) => {
                &&& complete_reply(order, ty, bytes)
                &&& wire::word_at(order, bytes, 4) == 0 || wire::word_at(order, bytes, 4) == 1
            },
            ReplyView::Close => false,
        },
{
    law_not_found_replies(order, ty, TRY_AGAIN);
}

/// Requests other than host lookups go to the real nscd whatever the policy
/// says, and what comes back is relayed as it is.
pub proof fn law_other_requests_are_not_judged(
    front: &Frontend,
    request: Request,
    caller: Caller,
    route: RouteView,
    reply: Seq<u8>,
)
    requires
        !request.ty.host_lookup(),
        front.may_route(request, caller, route),
    ensures
        route == RouteView::Forward,
        relayed(
            front.order(),
            request.ty,
            usable(front.order(), request.ty, Some(reply)),
        ) == ReplyView::Bytes(reply),
{
}

/// The reply with the daemon's own addresses is complete, and says
/// `found == 1`, or `found == 0` where there is no address of the family.
pub proof fn law_found_replies_are_complete(
    order: ByteOrder,
    ty: RequestType,
    name: Seq<char>,
    addrs: Seq<IpAddr>,
)
    requires
        vstd::utf8::encode_utf8(name).len() < i32::MAX,
        packed(addrs).len() <= i32::MAX,
        addrs.len() <= i32::MAX,
    ensures
        complete_reply(order, ty, found_bytes(order, ty, name, addrs)),
{
    let canon = vstd::utf8::encode_utf8(name).push(0);
    if ty == RequestType::GetAi {
        let words = seq![
            VERSION,
            1i32,
            addrs.len() as i32,
            packed(addrs).len() as i32,
            canon.len() as i32,
            0i32,
        ];
        let rest = packed(addrs) + families(addrs) + canon;
        let reply = found_bytes(order, ty, name, addrs);
        assert(reply =~= wire::words_bytes(order, words) + rest);
        wire::law_words_round_trip(order, words, rest, 0);
        wire::law_words_round_trip(order, words, rest, 1);
        wire::law_words_round_trip(order, words, rest, 2);
        wire::law_words_round_trip(order, words, rest, 3);
        wire::law_words_round_trip(order, words, rest, 4);
    } else {
        let family = if ty == RequestType::GetHostByName {
            AF_INET
        } else {
            AF_INET6
        };
        let matching = of_family(addrs, family);
        lemma_of_family(addrs, family);
        if matching.len() == 0 {
            law_not_found_replies(order, ty, NO_DATA);
        } else {
            let length = address_len(family);
            let words = seq![
                VERSION,
                1i32,
                canon.len() as i32,
                0i32,
                family,
                length,
                matching.len() as i32,
                0i32,
            ];
            let rest = canon + packed(matching);
            let reply = found_bytes(order, ty, name, addrs);
            assert(reply =~= wire::words_bytes(order, words) + rest);
            wire::law_words_round_trip(order, words, rest, 0);
            wire::law_words_round_trip(order, words, rest, 1);
            wire::law_words_round_trip(order, words, rest, 2);
            wire::law_words_round_trip(order, words, rest, 3);
            wire::law_words_round_trip(order, words, rest, 5);
            wire::law_words_round_trip(order, words, rest, 6);
            assert(packed(matching).len() == matching.len() * length);
        }
    }
}

/// The addresses of a family are no more than there are, and of one length.
proof fn lemma_of_family(addrs: Seq<IpAddr>, family: i32)
    requires
        family == AF_INET || family == AF_INET6,
    ensures
        of_family(addrs, family).len() <= addrs.len(),
        packed(of_family(addrs, family)).len() == of_family(addrs, family).len() * address_len(
            family,
        ),
    decreases addrs.len(),
{
    if addrs.len() > 0 {
        lemma_of_family(addrs.drop_last(), family);
        let before = of_family(addrs.drop_last(), family);
        if family_of(addrs.last()) == family {
            let matching = of_family(addrs, family);
            assert(matching.drop_last() =~= before);
            assert(addrs.last().octets().len() == address_len(family));
            if family == AF_INET6 {
                assert(matching.len() * 16 == before.len() * 16 + 16);
            } else {
                assert(matching.len() * 4 == before.len() * 4 + 4);
            }
        }
    }
}

/// The numbers of the protocol.
pub proof fn law_protocol_numbers()
    ensures
        VERSION == 2 && HEADER_LEN == 12 && MAX_KEY_LEN == 1024,
        HOST_NOT_FOUND == 1 && TRY_AGAIN == 2 && NO_DATA == 4,
        AF_INET == 2 && AF_INET6 == 10,
{
}

/// The kinds of request have glibc's numbers, and no other number is one.
pub proof fn law_numbers_of_types(n: int)
    ensures
        type_numbered(0) == Some(RequestType::GetPwByName),
        type_numbered(1) == Some(RequestType::GetPwByUid),
        type_numbered(2) == Some(RequestType::GetGrByName),
        type_numbered(3) == Some(RequestType::GetGrByGid),
        type_numbered(4) == Some(RequestType::GetHostByName),
        type_numbered(5) == Some(RequestType::GetHostByNameV6),
        type_numbered(6) == Some(RequestType::GetHostByAddr),
        type_numbered(7) == Some(RequestType::GetHostByAddrV6),
        type_numbered(8) == Some(RequestType::Shutdown),
        type_numbered(9) == Some(RequestType::GetStat),
        type_numbered(10) == Some(RequestType::Invalidate),
        type_numbered(11) == Some(RequestType::GetFdPw),
        type_numbered(12) == Some(RequestType::GetFdGr),
        type_numbered(13) == Some(RequestType::GetFdHst),
        type_numbered(14) == Some(RequestType::GetAi),
        type_numbered(15) == Some(RequestType::InitGroups),
        type_numbered(16) == Some(RequestType::GetServByName),
        type_numbered(17) == Some(RequestType::GetServByPort),
        type_numbered(18) == Some(RequestType::GetFdServ),
        type_numbered(19) == Some(RequestType::GetNetGrEnt),
        type_numbered(20) == Some(RequestType::InNetGr),
        type_numbered(21) == Some(RequestType::GetFdNetGr),
        n < 0 || n > 21 ==> type_numbered(n) is None,
{
}

/// On the wire each kind of request is glibc's number.
pub proof fn law_types_have_their_numbers()
    ensures
        RequestType::GetPwByName.number() == 0,
        RequestType::GetPwByUid.number() == 1,
        RequestType::GetGrByName.number() == 2,
        RequestType::GetGrByGid.number() == 3,
        RequestType::GetHostByName.number() == 4,
        RequestType::GetHostByNameV6.number() == 5,
        RequestType::GetHostByAddr.number() == 6,
        RequestType::GetHostByAddrV6.number() == 7,
        RequestType::Shutdown.number() == 8,
        RequestType::GetStat.number() == 9,
        RequestType::Invalidate.number() == 10,
        RequestType::GetFdPw.number() == 11,
        RequestType::GetFdGr.number() == 12,
        RequestType::GetFdHst.number() == 13,
        RequestType::GetAi.number() == 14,
        RequestType::InitGroups.number() == 15,
        RequestType::GetServByName.number() == 16,
        RequestType::GetServByPort.number() == 17,
        RequestType::GetFdServ.number() == 18,
        RequestType::GetNetGrEnt.number() == 19,
        RequestType::InNetGr.number() == 20,
        RequestType::GetFdNetGr.number() == 21,
{
}

/// The policy applies to the requests that carry a host name: numbers 4, 5 and
/// 14, and no others.
pub proof fn law_host_lookups(n: int)
    ensures
        type_numbered(n) matches Some(ty) ==> (ty.host_lookup() <==> n == 4 || n == 5 || n == 14),
{
    law_numbers_of_types(n);
}

/// A message with 4, 5 or 14 for its type is judged under the name in its key,
/// and dropped if there is none. Every other request goes to the real nscd,
/// whatever its key and the policy.
pub proof fn law_messages_are_routed_by_their_type(
    front: &Frontend,
    bytes: Seq<u8>,
    request: Request,
    caller: Caller,
    route: RouteView,
)
    requires
        parses_to(front.order(), bytes, Ok(request)),
        front.may_route(request, caller, route),
    ensures
        bytes.len() >= 12,
        wire::word_at(front.order(), bytes, 0) == 2,
        ({
            let n = wire::word_at(front.order(), bytes, 4);
            let name = key_hostname(bytes.skip(12));
            &&& 0 <= n <= 21
            &&& n != 4 && n != 5 && n != 14 ==> route == RouteView::Forward
            &&& (n == 4 || n == 5 || n == 14) && name is None ==> route == RouteView::Reply(
                ReplyView::Close,
            )
            &&& (n == 4 || n == 5 || n == 14) && name is Some ==> exists|verdict: policy::Verdict|
             #[trigger]
                front.engine().may_decide(name->0, caller, verdict) && route == judged(
                    front.order(),
                    if n == 4 {
                        RequestType::GetHostByName
                    } else if n == 5 {
                        RequestType::GetHostByNameV6
                    } else {
                        RequestType::GetAi
                    },
                    name->0,
                    verdict,
                )
        }),
{
    let n = wire::word_at(front.order(), bytes, 4);
    law_numbers_of_types(n as int);
    law_host_lookups(n as int);
}

/// A message is a request if it has a header with version 2, a known type and
/// the length of its key, of at most 1024 octets, and then that key. The key
/// is what follows the header.
pub proof fn law_requests(order: ByteOrder, bytes: Seq<u8>)
    ensures
        parsed_request(order, bytes) is Ok <==> {
            &&& bytes.len() >= 12
            &&& wire::word_at(order, bytes, 0) == 2
            &&& 0 <= wire::word_at(order, bytes, 4) <= 21
            &&& 0 <= wire::word_at(order, bytes, 8) <= 1024
            &&& bytes.len() == 12 + wire::word_at(order, bytes, 8)
        },
        parsed_request(order, bytes) matches Ok((ty, key)) ==> key == bytes.skip(12) && ty.number()
            == wire::word_at(order, bytes, 4) && type_numbered(
            wire::word_at(order, bytes, 4) as int,
        ) == Some(ty),
{
    let n = wire::word_at(order, bytes, 4) as int;
    law_numbers_of_types(n);
    law_types_have_their_numbers();
    if 0 <= n <= 21 {
        assert(type_numbered(n) is Some);
    }
}

/// Why a message is no request: the first thing that is wrong with it, in
/// words.
pub proof fn law_parse_errors(order: ByteOrder, bytes: Seq<u8>)
    ensures
        ({
            let version = wire::word_at(order, bytes, 0) as int;
            let ty = wire::word_at(order, bytes, 4) as int;
            let key_len = wire::word_at(order, bytes, 8) as int;
            let why = parsed_request(order, bytes)->Err_0;
            let header = bytes.len() >= 12;
            let known = header && version == 2 && 0 <= ty <= 21;
            &&& !header ==> why == "request too short: "@ + text::decimal(bytes.len()) + " bytes"@
            &&& header && version != 2 ==> why == "unsupported protocol version "@
                + text::decimal_int(version)
            &&& header && version == 2 && !(0 <= ty <= 21) ==> why == "unknown request type "@
                + text::decimal_int(ty)
            &&& known && key_len < 0 ==> why == "negative key length"@
            &&& known && key_len > 1024 ==> why == "key length "@ + text::decimal(key_len as nat)
                + " exceeds "@ + text::decimal(1024)
            &&& known && 0 <= key_len <= 1024 && bytes.len() != 12 + key_len ==> why
                == "key length "@ + text::decimal(key_len as nat) + " does not match "@
                + text::decimal((bytes.len() - 12) as nat) + " bytes of key"@
        }),
{
    law_requests(order, bytes);
    law_numbers_of_types(wire::word_at(order, bytes, 4) as int);
}

/// A key is a name in UTF-8, with or without a NUL after it. A key that holds
/// nothing else, or is not UTF-8, is no name.
pub proof fn law_names_in_keys(name: Seq<u8>)
    ensures
        name.len() > 0 && vstd::utf8::valid_utf8(name) ==> key_hostname(name.push(0)) == Some(
            vstd::utf8::decode_utf8(name),
        ),
        name.len() > 0 && name.last() != 0 && vstd::utf8::valid_utf8(name) ==> key_hostname(name)
            == Some(vstd::utf8::decode_utf8(name)),
        name.len() == 0 ==> key_hostname(name) is None && key_hostname(name.push(0)) is None,
        !vstd::utf8::valid_utf8(name) ==> key_hostname(name.push(0)) is None && (name.last() != 0
            ==> key_hostname(name) is None),
{
    assert(name.push(0).drop_last() =~= name);
}

/// The length of a key is read from the third word of a header, and is from 0
/// to 1024.
pub proof fn law_key_lengths(order: ByteOrder, header: Seq<u8>)
    ensures
        announced_key_len(order, header) is Some <==> 0 <= wire::word_at(order, header, 8) <= 1024,
        announced_key_len(order, header) matches Some(n) ==> n == wire::word_at(order, header, 8),
{
}

/// A request is three words, the version, glibc's number of its type and the
/// length of the key, and the key.
pub proof fn law_layout_of_requests(order: ByteOrder, ty: RequestType, key: Seq<u8>)
    requires
        key.len() <= 1024,
    ensures
        request_bytes(order, ty, key).len() == 12 + key.len(),
        wire::word_at(order, request_bytes(order, ty, key), 0) == 2,
        wire::word_at(order, request_bytes(order, ty, key), 4) == ty.number(),
        wire::word_at(order, request_bytes(order, ty, key), 8) == key.len(),
        request_bytes(order, ty, key).skip(12) == key,
{
    let header = seq![VERSION, ty.number() as i32, key.len() as i32];
    wire::law_words_round_trip(order, header, key, 0);
    wire::law_words_round_trip(order, header, key, 1);
    wire::law_words_round_trip(order, header, key, 2);
    assert(request_bytes(order, ty, key).skip(12) =~= key);
}

/// What becomes of a host request goes by the verdict on its name. A denied
/// name is not found, with error 1. A name that is passed through, or that is
/// allowed without the front-end knowing an address, goes to the real nscd.
/// `example.local`, if it is allowed, is 10.0.0.1.
pub proof fn law_routes_follow_the_verdict(
    order: ByteOrder,
    ty: RequestType,
    hostname: Seq<char>,
    reason: Seq<char>,
)
    ensures
        judged(order, ty, hostname, policy::Verdict::Denied(reason)) == RouteView::Reply(
            ReplyView::Bytes(not_found_bytes(order, ty, 1)),
        ),
        judged(order, ty, hostname, policy::Verdict::PassThrough) == RouteView::Forward,
        hostname != "example.local"@ ==> judged(order, ty, hostname, policy::Verdict::Allowed)
            == RouteView::Forward,
        hostname == "example.local"@ ==> judged(order, ty, hostname, policy::Verdict::Allowed)
            == RouteView::Reply(
            ReplyView::Bytes(
                found_bytes(order, ty, hostname, seq![IpAddr::V4([10u8, 0u8, 0u8, 1u8])]),
            ),
        ),
{
    upstream::law_one_name_is_known(hostname);
}

/// Negative replies are six words for `GETAI` and eight for the other host
/// requests, without anything after them; the last word is the error.
pub proof fn law_layout_of_negative_replies(order: ByteOrder, ty: RequestType, error: i32)
    ensures
        ty == RequestType::GetAi ==> not_found_bytes(order, ty, error) == wire::words_bytes(
            order,
            seq![2i32, 0, 0, 0, 0, error],
        ),
        ty != RequestType::GetAi ==> not_found_bytes(order, ty, error) == wire::words_bytes(
            order,
            seq![2i32, 0, 0, 0, (-1) as i32, (-1) as i32, 0, error],
        ),
        ai_not_found_bytes(order, error) == not_found_bytes(order, RequestType::GetAi, error),
        hst_not_found_bytes(order, error) == not_found_bytes(
            order,
            RequestType::GetHostByName,
            error,
        ),
{
}

/// The addresses in a reply stand one after the other with all their octets;
/// families are 2 for IPv4 and 10 for IPv6.
pub proof fn law_packed_addresses(addrs: Seq<IpAddr>, addr: IpAddr)
    ensures
        packed(seq![]) == Seq::<u8>::empty(),
        packed(addrs.push(addr)) == packed(addrs) + addr.octets(),
        families(seq![]) == Seq::<u8>::empty(),
        addr is V4 ==> families(addrs.push(addr)) == families(addrs).push(2),
        addr is V6 ==> families(addrs.push(addr)) == families(addrs).push(10),
        of_family(seq![], 2) == Seq::<IpAddr>::empty(),
        of_family(seq![], 10) == Seq::<IpAddr>::empty(),
        addr is V4 ==> of_family(addrs.push(addr), 2) == of_family(addrs, 2).push(addr)
            && of_family(addrs.push(addr), 10) == of_family(addrs, 10),
        addr is V6 ==> of_family(addrs.push(addr), 10) == of_family(addrs, 10).push(addr)
            && of_family(addrs.push(addr), 2) == of_family(addrs, 2),
{
    assert(addrs.push(addr).drop_last() =~= addrs);
    assert(families(addrs.push(addr)) =~= families(addrs).push(family_of(addr) as u8));
    assert(families(seq![]) =~= Seq::<u8>::empty());
}

/// A positive `GETAI` reply is six words (version, found, the number of
/// addresses, their octets, the octets of the name with its NUL, and no error),
/// the addresses, their families, and the name with its NUL.
pub proof fn law_layout_of_ai_replies(order: ByteOrder, name: Seq<char>, addrs: Seq<IpAddr>)
    ensures
        ai_found_bytes(order, name, addrs) == wire::words_bytes(
            order,
            seq![
                2i32,
                1,
                addrs.len() as i32,
                packed(addrs).len() as i32,
                (vstd::utf8::encode_utf8(name).len() + 1) as i32,
                0,
            ],
        ) + packed(addrs) + families(addrs) + vstd::utf8::encode_utf8(name).push(0),
        found_bytes(order, RequestType::GetAi, name, addrs) == ai_found_bytes(order, name, addrs),
{
}

/// A positive `GETHOSTBYNAME` reply has the IPv4 addresses, and a positive
/// `GETHOSTBYNAMEv6` reply the IPv6 addresses, after eight words (version,
/// found, the octets of the name with its NUL, no aliases, the family, the
/// octets of an address, the number of addresses, and no error) and the name
/// with its NUL. Where there is no address of the family, the reply is
/// negative, with error 4.
pub proof fn law_layout_of_host_replies(order: ByteOrder, name: Seq<char>, addrs: Seq<IpAddr>)
    ensures
        ({
            let text = vstd::utf8::encode_utf8(name).push(0);
            let (four, six) = (of_family(addrs, 2), of_family(addrs, 10));
            &&& four.len() > 0 ==> found_bytes(order, RequestType::GetHostByName, name, addrs)
                == wire::words_bytes(
                order,
                seq![2i32, 1, text.len() as i32, 0, 2, 4, four.len() as i32, 0],
            ) + text + packed(four)
            &&& four.len() == 0 ==> found_bytes(order, RequestType::GetHostByName, name, addrs)
                == not_found_bytes(order, RequestType::GetHostByName, 4)
            &&& six.len() > 0 ==> found_bytes(order, RequestType::GetHostByNameV6, name, addrs)
                == wire::words_bytes(
                order,
                seq![2i32, 1, text.len() as i32, 0, 10, 16, six.len() as i32, 0],
            ) + text + packed(six)
            &&& six.len() == 0 ==> found_bytes(order, RequestType::GetHostByNameV6, name, addrs)
                == not_found_bytes(order, RequestType::GetHostByNameV6, 4)
            &&& four.len() > 0 ==> hst_found_bytes(order, name, 2, four) == found_bytes(
                order,
                RequestType::GetHostByName,
                name,
                addrs,
            )
            &&& six.len() > 0 ==> hst_found_bytes(order, name, 10, six) == found_bytes(
                order,
                RequestType::GetHostByNameV6,
                name,
                addrs,
            )
        }),
{
}

/// A reply of the real nscd to `GETAI` is complete if it has version 2 and
/// says "not found" in a header of 24 octets alone, or "found" with as many
/// octets after the header as this announces.
pub proof fn law_complete_ai_replies(order: ByteOrder, reply: Seq<u8>)
    ensures
        complete_reply(order, RequestType::GetAi, reply) <==> {
            &&& reply.len() >= 24
            &&& wire::word_at(order, reply, 0) == 2
            &&& {
                ||| wire::word_at(order, reply, 4) == 0 && reply.len() == 24
                ||| {
                    &&& wire::word_at(order, reply, 4) == 1
                    &&& wire::word_at(order, reply, 8) >= 0
                    &&& wire::word_at(order, reply, 12) >= 0
                    &&& wire::word_at(order, reply, 16) >= 0
                    &&& reply.len() - 24 == wire::word_at(order, reply, 8) + wire::word_at(
                        order,
                        reply,
                        12,
                    ) + wire::word_at(order, reply, 16)
                }
            }
        },
{
}

/// A reply of the real nscd to another host request is complete if it has
/// version 2 and says "not found" in a header of 32 octets alone, or "found"
/// and goes on with the name, the lengths of the aliases, the addresses and
/// the aliases, and nothing else.
pub proof fn law_complete_host_replies(order: ByteOrder, ty: RequestType, reply: Seq<u8>)
    requires
        ty != RequestType::GetAi,
    ensures
        ({
            let name = wire::word_at(order, reply, 8);
            let aliases = wire::word_at(order, reply, 12);
            let length = wire::word_at(order, reply, 20);
            let count = wire::word_at(order, reply, 24);
            let total = total_of_lengths(order, reply, 32 + name, aliases as int);
            complete_reply(order, ty, reply) <==> {
                &&& reply.len() >= 32
                &&& wire::word_at(order, reply, 0) == 2
                &&& {
                    ||| wire::word_at(order, reply, 4) == 0 && reply.len() == 32
                    ||| {
                        &&& wire::word_at(order, reply, 4) == 1
                        &&& name >= 0 && aliases >= 0 && length >= 0 && count >= 0
                        &&& reply.len() - 32 - name >= 4 * aliases
                        &&& total is Some
                        &&& reply.len() - 32 == name + 4 * aliases + count * length + total->0
                    }
                }
            }
        }),
{
}

/// The lengths of aliases add up, unless one is negative.
pub proof fn law_lengths_add_up(order: ByteOrder, reply: Seq<u8>, at: int, n: int)
    requires
        n >= 0,
    ensures
        total_of_lengths(order, reply, at, 0) == Some(0int),
        match total_of_lengths(order, reply, at, n) {
            Some(total) if wire::word_at(order, reply, at + 4 * n) >= 0 => total_of_lengths(
                order,
                reply,
                at,
                n + 1,
            ) == Some(total + wire::word_at(order, reply, at + 4 * n)),
            _ => total_of_lengths(order, reply, at, n + 1) is None,
        },
{
}

/// Whatever the real nscd sends back to a request other than a host lookup, of
/// any length and content, is relayed as it came, and the connection is closed
/// when nothing came back. To a host lookup a complete reply is relayed as it
/// came, and anything else, as well as nothing, becomes "try again".
pub proof fn law_replies_are_relayed_verbatim(
    order: ByteOrder,
    ty: RequestType,
    reply: Seq<u8>,
)
    ensures
        relayed(order, ty, Some(reply)) == ReplyView::Bytes(reply),
        ty.number() != 4 && ty.number() != 5 && ty.number() != 14 ==> {
            &&& relayed(order, ty, usable(order, ty, Some(reply))) == ReplyView::Bytes(reply)
            &&& relayed(order, ty, usable(order, ty, None)) == ReplyView::Close
            &&& relayed(order, ty, None) == ReplyView::Close
        },
        ty.number() == 4 || ty.number() == 5 || ty.number() == 14 ==> {
            &&& complete_reply(order, ty, reply) ==> relayed(
                order,
                ty,
                usable(order, ty, Some(reply)),
            ) == ReplyView::Bytes(reply)
            &&& !complete_reply(order, ty, reply) ==> relayed(
                order,
                ty,
                usable(order, ty, Some(reply)),
            ) == ReplyView::Bytes(not_found_bytes(order, ty, 2))
            &&& relayed(order, ty, usable(order, ty, None)) == ReplyView::Bytes(
                not_found_bytes(order, ty, 2),
            )
            &&& relayed(order, ty, None) == ReplyView::Bytes(not_found_bytes(order, ty, 2))
        },
{
    law_host_lookups(ty.number());
    law_types_round_trip(ty, ty.number());
}

/// Routes and replies are what they are, with their bytes to the octet.
pub proof fn law_views_of_routes(bytes: Vec<u8>)
    ensures
        Reply::Bytes(bytes)@ == ReplyView::Bytes(bytes@),
        Reply::Close@ == ReplyView::Close,
        Route::Reply(Reply::Bytes(bytes))@ == RouteView::Reply(ReplyView::Bytes(bytes@)),
        Route::Reply(Reply::Close)@ == RouteView::Reply(ReplyView::Close),
        Route::Forward@ == RouteView::Forward,
        reply_bytes(Some(bytes)) == Some(bytes@),
        reply_bytes(None) is None,
{
}

/// A parsed request has its type and its key from the message and holds the
/// message as it came; a message that is none gives the reason why.
pub proof fn law_parsing(order: ByteOrder, bytes: Seq<u8>, r: Result<Request, String>)
    requires
        parses_to(order, bytes, r),
    ensures
        r is Ok <==> parsed_request(order, bytes) is Ok,
        r matches Ok(request) ==> {
            &&& request.raw@ == bytes
            &&& request.key@ == bytes.skip(12)
            &&& request.ty.number() == wire::word_at(order, bytes, 4)
        },
        r matches Err(message) ==> parsed_request(order, bytes) == Err::<
            (RequestType, Seq<u8>),
            Seq<char>,
        >(message@),
{
    law_requests(order, bytes);
}

/// A request is routed by its type and key: 4, 5 and 14 are judged under the
/// name in the key, and everything else goes to the real nscd.
pub proof fn law_requests_are_routed(
    front: &Frontend,
    request: Request,
    caller: Caller,
    route: RouteView,
)
    requires
        front.may_route(request, caller, route),
    ensures
        ({
            let n = request.ty.number();
            let name = key_hostname(request.key@);
            &&& n != 4 && n != 5 && n != 14 ==> route == RouteView::Forward
            &&& (n == 4 || n == 5 || n == 14) && name is None ==> route == RouteView::Reply(
                ReplyView::Close,
            )
            &&& (n == 4 || n == 5 || n == 14) && name is Some ==> exists|verdict: policy::Verdict|
             #[trigger]
                front.engine().may_decide(name->0, caller, verdict) && route == judged(
                    front.order(),
                    request.ty,
                    name->0,
                    verdict,
                )
        }),
{
    law_types_have_their_numbers();
    law_types_round_trip(request.ty, request.ty.number());
    law_host_lookups(request.ty.number());
}

/// There is a positive reply of a family exactly if there are addresses of it,
/// and it holds all of them. There are none of a family other than 2 and 10.
pub proof fn law_positive_replies(
    order: ByteOrder,
    name: Seq<char>,
    family: i32,
    addrs: Seq<IpAddr>,
    r: Option<Vec<u8>>,
)
    requires
        hst_found_is(order, name, family, addrs, r),
    ensures
        r is Some <==> of_family(addrs, family).len() > 0,
        r matches Some(bytes) ==> bytes@ == hst_found_bytes(
            order,
            name,
            family,
            of_family(addrs, family),
        ),
        family != 2 && family != 10 ==> r is None,
{
    lemma_other_families(addrs, family);
}

proof fn lemma_other_families(addrs: Seq<IpAddr>, family: i32)
    ensures
        family != 2 && family != 10 ==> of_family(addrs, family).len() == 0,
    decreases addrs.len(),
{
    if addrs.len() > 0 {
        lemma_other_families(addrs.drop_last(), family);
    }
}

} // verus!
