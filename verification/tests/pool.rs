use std::path::PathBuf;

use comm::addr::{Addr, SocketAddr, SocketAddrV4, SocketAddrV6};
use comm::connect::{connect_channel, ConnectPlan};
use comm::handshake::{send_channel_handshake, send_channel_request};
use comm::pool::BasicPool;

fn v4(port: u16) -> SocketAddr {
    SocketAddr::V4(SocketAddrV4 { ip: 0x7f00_0001, port })
}

#[test]
fn empty_pool_has_no_connection() {
    let mut pool: BasicPool<u64, &str> = BasicPool::default();
    assert_eq!(pool.get(1), None);
    assert_eq!(pool.get(1), None);
}

#[test]
fn connections_are_recycled_in_fifo_order() {
    let mut pool = BasicPool::default();
    pool.put(v4(1), "a");
    pool.put(v4(1), "b");
    assert_eq!(pool.get(v4(1)), Some("a"));
    pool.put(v4(1), "c");
    assert_eq!(pool.get(v4(1)), Some("b"));
    assert_eq!(pool.get(v4(1)), Some("c"));
    assert_eq!(pool.get(v4(1)), None);
}

#[test]
fn addresses_are_kept_apart() {
    let mut pool = BasicPool::default();
    pool.put(v4(1), "a");
    pool.put(v4(2), "b");
    assert_eq!(pool.get(v4(3)), None);
    assert_eq!(pool.get(v4(2)), Some("b"));
    assert_eq!(pool.get(v4(2)), None);
    assert_eq!(pool.get(v4(1)), Some("a"));
}

#[test]
fn idle_connection_is_reused_by_an_abbreviated_handshake() {
    let mut pool = BasicPool::default();
    pool.put(v4(1), "idle");
    match connect_channel(Some(&mut pool), v4(1), 42) {
        ConnectPlan::Reuse { conn, request } => {
            assert_eq!(conn, "idle");
            assert_eq!(request, [0, 0, 0, 0, 0, 0, 0, 0, 0, 0, 0, 0, 0, 0, 0, 42]);
        }
        ConnectPlan::Dial { .. } => panic!("an idle connection was passed over"),
    }
    assert_eq!(pool.get(v4(1)), None);
}

#[test]
fn new_connection_begins_with_a_whole_handshake() {
    let mut pool: BasicPool<SocketAddr, &str> = BasicPool::default();
    pool.put(v4(2), "elsewhere");
    match connect_channel(Some(&mut pool), v4(1), 42) {
        ConnectPlan::Dial { handshake } => assert_eq!(handshake, send_channel_handshake(42)),
        ConnectPlan::Reuse { .. } => panic!("no connection to this address was idle"),
    }
    assert_eq!(pool.get(v4(2)), Some("elsewhere"));
    match connect_channel::<SocketAddr, &str>(None, v4(1), 42) {
        ConnectPlan::Dial { handshake } => assert_eq!(handshake, send_channel_handshake(42)),
        ConnectPlan::Reuse { .. } => panic!("there was no pool"),
    }
}

#[test]
fn abbreviated_handshake_is_the_end_of_the_whole_one() {
    let whole = send_channel_handshake(7);
    assert_eq!(&whole[9..13], &[0, 0, 0, 16]);
    assert_eq!(&whole[13..], &send_channel_request(7)[..]);
}

#[test]
fn addresses_know_their_kind() {
    assert_eq!(Addr::from(v4(80)), Addr::Tcp(v4(80)));
    let v6 = SocketAddr::V6(SocketAddrV6 { ip: 1, port: 80, flowinfo: 2, scope_id: 3 });
    assert_eq!(Addr::from(v6), Addr::Tcp(v6));
    let path = PathBuf::from("/tmp/comm");
    assert_eq!(Addr::from(path.clone()), Addr::Unix(path));
}

#[test]
fn unix_addresses_are_equal_as_paths_are() {
    let addr = Addr::from(PathBuf::from("/a/b"));
    assert_eq!(addr, Addr::from(PathBuf::from("/a//b")));
    assert_eq!(addr, addr.clone());
    assert_ne!(addr, Addr::from(PathBuf::from("/a/c")));
    assert_ne!(addr, Addr::from(v4(80)));
}

#[test]
fn order_is_kept_per_address_in_any_history() {
    let mut pool = BasicPool::default();
    pool.put(1u64, "a");
    pool.put(2, "b");
    pool.put(1, "c");
    assert_eq!(pool.get(1), Some("a"));
    assert_eq!(pool.get(2), Some("b"));
    assert_eq!(pool.get(1), Some("c"));
    assert_eq!(pool.get(1), None);
    assert_eq!(pool.get(2), None);
    pool.put(1, "a");
    assert_eq!(pool.get(1), Some("a"));
}

#[test]
fn connections_come_out_under_the_address_they_were_filed_under() {
    let mut pool = BasicPool::default();
    for peer in [3u64, 1, 3, 2] {
        pool.put(peer, peer);
    }
    assert_eq!(pool.get(3), Some(3));
    assert_eq!(pool.get(2), Some(2));
    assert_eq!(pool.get(1), Some(1));
    assert_eq!(pool.get(3), Some(3));
}

#[test]
fn open_channels_have_their_own_connections() {
    let mut pool = BasicPool::default();
    pool.put(v4(1), "one");
    pool.put(v4(1), "two");
    let mut used = vec![];
    for uuid in 0..2 {
        match connect_channel(Some(&mut pool), v4(1), uuid) {
            ConnectPlan::Reuse { conn, .. } => used.push(conn),
            ConnectPlan::Dial { .. } => panic!("an idle connection was passed over"),
        }
    }
    assert_eq!(used, vec!["one", "two"]);
    assert!(matches!(connect_channel(Some(&mut pool), v4(1), 2), ConnectPlan::Dial { .. }));
}
