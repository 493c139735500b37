//! Who owns a local IP socket?
//!
//! A DNS query that arrives over loopback carries no credentials, but the
//! kernel lists every local socket with its addresses, the uid of its owner
//! and its inode. The functions here pick the row that a query came out of.
use crate::addr::{same_octets, IpAddr, SocketAddr};
use crate::policy::Caller;
use vstd::prelude::*;

verus! {

/// The transport that a query arrived over.
#[derive(Debug, Clone, Copy, PartialEq, Eq, Structural)]
pub enum Transport {
    Udp,
    Tcp,
}

/// A row of a socket table: the local address, the owner and the inode.
#[derive(Debug, Clone, Copy, PartialEq, Eq)]
pub struct SocketEntry {
    pub local: SocketAddr,
    pub uid: u32,
    pub inode: u64,
}

/// Whether a packet from `peer` may have come out of the socket in this row:
/// the ports are the same, and so are the addresses, unless the row's is the
/// wildcard.
pub open spec fn sends_as(entry: SocketEntry, peer: SocketAddr) -> bool {
    entry.local.port() == peer.port() && (entry.local.ip() == peer.ip()
        || entry.local.ip().unspecified())
}

fn matches_peer(entry: &SocketEntry, peer: &SocketAddr) -> (r: bool)
    ensures
        r == sends_as(*entry, *peer),
{
    entry.local.port() == peer.port() && (entry.local.ip().same(&peer.ip())
        || entry.local.ip().is_unspecified())
}

/// The first row for a socket that a packet from `peer` may have come out of.
pub fn find_socket(entries: &[SocketEntry], peer: SocketAddr) -> (r: Option<&SocketEntry>)
    ensures
        match r {
            Some(entry) => exists|i: int|
                0 <= i < entries@.len() && *entry == #[trigger] entries@[i] && sends_as(
                    entries@[i],
                    peer,
                ) && forall|j: int| 0 <= j < i ==> !sends_as(#[trigger] entries@[j], peer),
            None => forall|j: int|
                0 <= j < entries@.len() ==> !sends_as(#[trigger] entries@[j], peer),
        },
{
    for i in 0..entries.len()
        invariant
            forall|j: int| 0 <= j < i ==> !sends_as(#[trigger] entries@[j], peer),
    {
        if matches_peer(&entries[i], &peer) {
            assert(*(&entries@[i as int]) == entries@[i as int]);
            return Some(&entries[i]);
        }
    }
    None
}

/// A row of a socket table with both ends of the connection.
#[derive(Debug, Clone, Copy, PartialEq, Eq)]
pub struct Connection {
    pub socket: SocketEntry,
    /// Where the socket is connected to; the wildcard if it is not.
    pub remote: SocketAddr,
}

/// Whether two addresses are the same host and port, where an IPv4-mapped
/// IPv6 address is the IPv4 address.
pub open spec fn same_end(a: SocketAddr, b: SocketAddr) -> bool {
    a.port() == b.port() && a.ip().host() == b.ip().host()
}

/// Whether the address of a row is a wildcard that `end` falls under: no
/// address, and the same port or none.
pub open spec fn wild_end(row: SocketAddr, end: SocketAddr) -> bool {
    row.ip().unspecified() && (row.port() == end.port() || row.port() == 0)
}

/// How well a row fits a packet from `client` to `server`: not at all, or the
/// better the more of its addresses are the packet's own. A row's local port
/// has to be the client's.
pub open spec fn fit(row: Connection, client: SocketAddr, server: SocketAddr) -> Option<nat> {
    let local = row.socket.local;
    if local.port() == client.port() && (same_end(local, client) || wild_end(local, client)) && (
    same_end(row.remote, server) || wild_end(row.remote, server)) {
        Some(
            (if same_end(local, client) {
                2nat
            } else {
                0nat
            }) + (if same_end(row.remote, server) {
                1nat
            } else {
                0nat
            }),
        )
    } else {
        None
    }
}

/// Whether the row at `i` is among those that fit best.
pub open spec fn best_fit(
    rows: Seq<Connection>,
    client: SocketAddr,
    server: SocketAddr,
    i: int,
) -> bool {
    &&& 0 <= i < rows.len()
    &&& fit(rows[i], client, server) is Some
    &&& forall|j: int|
        0 <= j < rows.len() && fit(#[trigger] rows[j], client, server) is Some ==> fit(
            rows[j],
            client,
            server,
        )->0 <= fit(rows[i], client, server)->0
}

fn same_host(a: &IpAddr, b: &IpAddr) -> (r: bool)
    ensures
        r == (a.host() == b.host()),
{
    same_octets(&a.host_bytes(), &b.host_bytes())
}

fn is_wild_end(row: &SocketAddr, end: &SocketAddr) -> (r: bool)
    ensures
        r == wild_end(*row, *end),
{
    row.ip().is_unspecified() && (row.port() == end.port() || row.port() == 0)
}

fn fit_of(row: &Connection, client: &SocketAddr, server: &SocketAddr) -> (r: Option<u8>)
    ensures
        match r {
            Some(n) => fit(*row, *client, *server) == Some(n as nat),
            None => fit(*row, *client, *server) is None,
        },
{
    let local = &row.socket.local;
    if local.port() != client.port() {
        return None;
    }
    let exact_local = same_host(&local.ip(), &client.ip());
    let exact_remote = row.remote.port() == server.port() && same_host(
        &row.remote.ip(),
        &server.ip(),
    );
    if !exact_local && !is_wild_end(local, client) {
        return None;
    }
    if !exact_remote && !is_wild_end(&row.remote, server) {
        return None;
    }
    let points: u8 = if exact_local {
        2
    } else {
        0
    };
    if exact_remote {
        Some(points + 1)
    } else {
        Some(points)
    }
}

/// The socket that a packet from `client` to `server` came out of: the first
/// of the rows that fit best, provided that all of those have one owner. When
/// sockets of different users fit equally well, nobody is identified.
pub fn find_owner(rows: &[Connection], client: SocketAddr, server: SocketAddr) -> (r: Option<
    SocketEntry,
>)
    ensures
        match r {
            Some(socket) => exists|i: int| #[trigger]
                best_fit(rows@, client, server, i) && socket == rows@[i].socket && (forall|j: int|
                    0 <= j < i ==> !#[trigger] best_fit(rows@, client, server, j)) && (forall|j: int|
                 #[trigger]
                    best_fit(rows@, client, server, j) ==> rows@[j].socket.uid == socket.uid),
            None => {
                ||| forall|i: int| !#[trigger] best_fit(rows@, client, server, i)
                ||| exists|i: int, j: int| #[trigger]
                    best_fit(rows@, client, server, i) && #[trigger] best_fit(
                        rows@,
                        client,
                        server,
                        j,
                    ) && rows@[i].socket.uid != rows@[j].socket.uid
            },
        },
{
    let mut best: Option<(usize, u8)> = None;
    for i in 0..rows.len()
        invariant
            match best {
                Some((k, points)) => {
                    &&& k < i
                    &&& fit(rows@[k as int], client, server) == Some(points as nat)
                    &&& forall|j: int|
                        0 <= j < i && fit(#[trigger] rows@[j], client, server) is Some ==> fit(
                            rows@[j],
                            client,
                            server,
                        )->0 <= points
                    &&& forall|j: int|
                        0 <= j < k && fit(#[trigger] rows@[j], client, server) is Some ==> fit(
                            rows@[j],
                            client,
                            server,
                        )->0 < points
                },
                None => forall|j: int|
                    0 <= j < i ==> fit(#[trigger] rows@[j], client, server) is None,
            },
    {
        match fit_of(&rows[i], &client, &server) {
            Some(points) => {
                let better = match best {
                    Some((_, so_far)) => points > so_far,
                    None => true,
                };
                if better {
                    best = Some((i, points));
                }
            },
            None => {},
        }
    }
    let (k, points): (usize, u8) = match best {
        Some(found) => found,
        None => {
            assert forall|i: int| !#[trigger] best_fit(rows@, client, server, i) by {
                if best_fit(rows@, client, server, i) {
                    assert(fit(rows@[i], client, server) is None);
                }
            }
            return None;
        },
    };
    assert(best_fit(rows@, client, server, k as int));
    assert forall|j: int| 0 <= j < k implies !#[trigger] best_fit(rows@, client, server, j) by {
        if best_fit(rows@, client, server, j) {
            assert(fit(rows@[j], client, server)->0 < points);
            assert(fit(rows@[k as int], client, server)->0 <= fit(rows@[j], client, server)->0);
        }
    }
    for i in 0..rows.len()
        invariant
            best_fit(rows@, client, server, k as int),
            fit(rows@[k as int], client, server) == Some(points as nat),
            forall|j: int|
                0 <= j < i && #[trigger] best_fit(rows@, client, server, j)
                    ==> rows@[j].socket.uid == rows@[k as int].socket.uid,
    {
        match fit_of(&rows[i], &client, &server) {
            Some(n) => {
                if n == points && rows[i].socket.uid != rows[k].socket.uid {
                    assert(best_fit(rows@, client, server, i as int));
                    return None;
                }
                if n != points {
                    assert(!best_fit(rows@, client, server, i as int)) by {
                        if best_fit(rows@, client, server, i as int) {
                            assert(fit(rows@[k as int], client, server)->0 <= fit(
                                rows@[i as int],
                                client,
                                server,
                            )->0);
                            assert(fit(rows@[i as int], client, server)->0 <= fit(
                                rows@[k as int],
                                client,
                                server,
                            )->0);
                        }
                    }
                }
            },
            None => {},
        }
    }
    Some(rows[k].socket)
}

/// Whether a process with sockets of these inodes holds the one asked for.
pub fn holds_socket(inodes: &[u64], inode: u64) -> (r: bool)
    ensures
        r == inodes@.contains(inode),
{
    for i in 0..inodes.len()
        invariant
            forall|j: int| 0 <= j < i ==> inodes@[j] != inode,
    {
        if inodes[i] == inode {
            return true;
        }
    }
    false
}

/// The caller behind a socket: the uid from the socket table, and the pid and
/// gid when the process that holds the socket could be found. Without a
/// socket nothing is known.
pub fn identified(socket: Option<SocketEntry>, pid: Option<i32>, gid: Option<u32>) -> (r: Caller)
    ensures
        match socket {
            Some(socket) => r == (Caller { uid: Some(socket.uid), gid, pid }),
            None => r == (Caller { uid: None, gid: None, pid: None }),
        },
{
    match socket {
        Some(socket) => Caller { uid: Some(socket.uid), gid, pid },
        None => Caller::unknown(),
    }
}

/// A row that stands for the very connection, with both its ends, fits better
/// than any other does, and as well as any row that also does.
pub proof fn law_whole_connections_fit_best(
    row: Connection,
    other: Connection,
    client: SocketAddr,
    server: SocketAddr,
)
    requires
        same_end(row.socket.local, client),
        same_end(row.remote, server),
        fit(other, client, server) is Some,
    ensures
        fit(row, client, server) is Some,
        fit(other, client, server)->0 <= fit(row, client, server)->0,
        fit(other, client, server)->0 == fit(row, client, server)->0 ==> same_end(
            other.socket.local,
            client,
        ) && same_end(other.remote, server),
{
}

/// A packet comes out of a socket with its source port, and with its source
/// address or none; nothing else about the socket matters.
pub proof fn law_sockets_send_from_their_address(entry: SocketEntry, peer: SocketAddr)
    ensures
        sends_as(entry, peer) <==> entry.local.port() == peer.port() && (entry.local.ip()
            == peer.ip() || forall|i: int|
            0 <= i < entry.local.ip().octets().len() ==> #[trigger] entry.local.ip().octets()[i]
                == 0),
{
}

/// A row fits a packet if each of its ends is the packet's or is a wildcard,
/// and its local port is the client's port in any case. The row of the very
/// connection fits best, then one with the client's address, then one with the
/// server's, then one with neither.
pub proof fn law_how_rows_fit(row: Connection, client: SocketAddr, server: SocketAddr)
    ensures
        ({
            let (local, remote) = (row.socket.local, row.remote);
            let mine = local.port() == client.port() && local.ip().host() == client.ip().host();
            let yours = remote.port() == server.port() && remote.ip().host() == server.ip().host();
            let any_local = local.port() == client.port() && local.ip().unspecified();
            let any_remote = remote.ip().unspecified() && (remote.port() == 0 || remote.port()
                == server.port());
            &&& mine && yours ==> fit(row, client, server) == Some(3nat)
            &&& mine && !yours && any_remote ==> fit(row, client, server) == Some(2nat)
            &&& !mine && any_local && yours ==> fit(row, client, server) == Some(1nat)
            &&& !mine && any_local && !yours && any_remote ==> fit(row, client, server) == Some(
                0nat,
            )
            &&& !mine && !any_local ==> fit(row, client, server) is None
            &&& !yours && !any_remote ==> fit(row, client, server) is None
        }),
{
}

/// A row is among the best exactly if it fits and none fits better.
pub proof fn law_best_rows(
    rows: Seq<Connection>,
    client: SocketAddr,
    server: SocketAddr,
    i: int,
)
    ensures
        best_fit(rows, client, server, i) <==> {
            &&& 0 <= i < rows.len()
            &&& fit(rows[i], client, server) is Some
            &&& forall|j: int|
                0 <= j < rows.len() && fit(#[trigger] rows[j], client, server) is Some ==> fit(
                    rows[i],
                    client,
                    server,
                )->0 >= fit(rows[j], client, server)->0
        },
{
}

} // verus!
