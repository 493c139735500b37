use deezns::addr::{IpAddr, SocketAddr};
use deezns::identify::{
    find_owner, find_socket, holds_socket, identified, Connection, SocketEntry,
};
use deezns::policy::Caller;

fn v4(a: u8, b: u8, c: u8, d: u8, port: u16) -> SocketAddr {
    SocketAddr::new(IpAddr::V4([a, b, c, d]), port)
}

fn mapped(a: u8, b: u8, c: u8, d: u8, port: u16) -> SocketAddr {
    SocketAddr::new(
        IpAddr::V6([0, 0, 0, 0, 0, 0, 0, 0, 0, 0, 0xff, 0xff, a, b, c, d]),
        port,
    )
}

fn any6(port: u16) -> SocketAddr {
    SocketAddr::new(IpAddr::V6([0; 16]), port)
}

fn entry(local: SocketAddr, uid: u32, inode: u64) -> SocketEntry {
    SocketEntry { local, uid, inode }
}

fn row(local: SocketAddr, remote: SocketAddr, uid: u32, inode: u64) -> Connection {
    Connection { socket: entry(local, uid, inode), remote }
}

#[test]
fn sockets_match_on_port_and_address_or_wildcard() {
    let entries = [
        entry(v4(0, 0, 0, 0, 5000), 1000, 1),
        entry(v4(127, 0, 0, 1, 5001), 1001, 2),
        entry(v4(10, 0, 0, 1, 5001), 1002, 3),
    ];
    assert_eq!(
        find_socket(&entries, v4(127, 0, 0, 1, 5000)).map(|e| e.inode),
        Some(1)
    );
    assert_eq!(
        find_socket(&entries, v4(127, 0, 0, 1, 5001)).map(|e| e.inode),
        Some(2)
    );
    assert_eq!(
        find_socket(&entries, v4(10, 0, 0, 1, 5001)).map(|e| e.inode),
        Some(3)
    );
    assert_eq!(find_socket(&entries, v4(192, 0, 2, 1, 5001)), None);
    assert_eq!(find_socket(&entries, v4(127, 0, 0, 1, 5002)), None);
}

#[test]
fn the_first_of_several_sockets_counts() {
    let entries = [
        entry(any6(7), 1, 1),
        entry(v4(127, 0, 0, 1, 7), 2, 2),
    ];
    assert_eq!(find_socket(&entries, v4(127, 0, 0, 1, 7)).map(|e| e.inode), Some(1));
}

#[test]
fn owners_are_found_by_the_whole_connection() {
    let client = v4(127, 0, 0, 1, 5000);
    let server = v4(127, 0, 0, 1, 53);
    let rows = [
        row(v4(0, 0, 0, 0, 5000), v4(0, 0, 0, 0, 0), 1, 1),
        row(v4(127, 0, 0, 1, 5000), v4(127, 0, 0, 2, 53), 2, 2),
        row(v4(127, 0, 0, 1, 5000), v4(127, 0, 0, 1, 53), 3, 3),
        row(v4(127, 0, 0, 1, 5001), v4(127, 0, 0, 1, 53), 4, 4),
    ];
    assert_eq!(find_owner(&rows, client, server).map(|s| s.inode), Some(3));
    assert_eq!(find_owner(&rows[..2], client, server).map(|s| s.inode), Some(1));
    assert_eq!(find_owner(&rows[1..2], client, server), None);
    assert_eq!(find_owner(&[], client, server), None);
}

#[test]
fn a_dual_stack_socket_is_found_under_its_mapped_address() {
    let client = v4(127, 0, 0, 1, 5000);
    let server = v4(127, 0, 0, 1, 53);
    let rows = [
        row(mapped(127, 0, 0, 1, 5000), mapped(127, 0, 0, 1, 53), 9, 9),
        row(any6(5000), any6(0), 8, 8),
    ];
    assert_eq!(find_owner(&rows, client, server).map(|s| s.uid), Some(9));
    assert_eq!(find_owner(&rows[1..], client, server).map(|s| s.uid), Some(8));
}

#[test]
fn equal_fits_of_different_users_identify_nobody() {
    let client = v4(127, 0, 0, 1, 5000);
    let server = v4(127, 0, 0, 1, 53);
    let shared = |uid: u32, inode: u64| row(v4(0, 0, 0, 0, 5000), v4(0, 0, 0, 0, 0), uid, inode);
    assert_eq!(find_owner(&[shared(1, 1), shared(2, 2)], client, server), None);
    assert_eq!(
        find_owner(&[shared(1, 1), shared(1, 2)], client, server).map(|s| s.inode),
        Some(1)
    );
    let exact = row(client, server, 2, 3);
    assert_eq!(
        find_owner(&[shared(1, 1), exact, shared(3, 2)], client, server).map(|s| s.inode),
        Some(3)
    );
}

#[test]
fn callers_are_known_as_far_as_their_socket_is() {
    let socket = entry(v4(127, 0, 0, 1, 1), 7, 8);
    assert_eq!(
        identified(Some(socket), Some(3), Some(4)),
        Caller { uid: Some(7), gid: Some(4), pid: Some(3) }
    );
    assert_eq!(
        identified(Some(socket), None, None),
        Caller { uid: Some(7), gid: None, pid: None }
    );
    assert_eq!(identified(None, Some(3), Some(4)), Caller::unknown());
    assert!(holds_socket(&[1, 8, 2], socket.inode));
    assert!(!holds_socket(&[1, 2], socket.inode));
}

#[test]
fn wildcard_addresses_are_unspecified() {
    assert!(v4(0, 0, 0, 0, 1).ip().is_unspecified());
    assert!(any6(1).ip().is_unspecified());
    assert!(!v4(0, 0, 0, 1, 0).ip().is_unspecified());
    assert!(!mapped(0, 0, 0, 0, 0).ip().is_unspecified());
    assert_eq!(mapped(1, 2, 3, 4, 0).ip().host_bytes(), vec![1, 2, 3, 4]);
    assert_eq!(any6(0).ip().host_bytes(), vec![0; 16]);
    assert_eq!(v4(1, 2, 3, 4, 0).ip().bytes(), vec![1, 2, 3, 4]);
    assert!(v4(1, 2, 3, 4, 0).ip().same(&IpAddr::V4([1, 2, 3, 4])));
    assert!(!v4(1, 2, 3, 4, 0).ip().same(&mapped(1, 2, 3, 4, 0).ip()));
}

#[test]
fn the_scope_of_an_address_does_not_matter_to_a_match() {
    let ip = [0xfe, 0x80, 0, 0, 0, 0, 0, 0, 0, 0, 0, 0, 0, 0, 0, 1];
    let scoped = SocketAddr::V6 { ip, port: 5000, flowinfo: 7, scope_id: 2 };
    let plain = SocketAddr::new(IpAddr::V6(ip), 5000);
    assert_ne!(scoped, plain);
    assert_eq!((scoped.ip(), scoped.port()), (plain.ip(), plain.port()));
    let entries = [entry(plain, 1000, 1)];
    assert_eq!(find_socket(&entries, scoped).map(|e| e.inode), Some(1));
}
