use std::collections::HashMap;
use std::time::{Duration, SystemTime};
use websocket_bridge::status::{
    count_sent, has_room_to_receive, has_room_to_send, is_readable, register, register_at,
    tcp_to_ws_status, unregister, ws_to_tcp_status, ws_to_tcp_status_at, ConnectionStatusCode, StatusMap,
};

fn at(seconds: u64) -> SystemTime {
    SystemTime::UNIX_EPOCH + Duration::from_secs(seconds)
}

fn one(port: u16) -> StatusMap {
    let mut map: StatusMap = HashMap::new();
    register_at(&mut map, port, at(1));
    map
}

fn google() -> Vec<u8> {
    vec![5, 1, 0, 3, 10, 103, 111, 111, 103, 108, 101, 46, 99, 111, 109, 0, 80]
}

#[test]
fn a_connection_is_entered() {
    let map = one(7);
    let s = &map[&7];
    assert_eq!(map.len(), 1);
    assert_eq!(s.status, ConnectionStatusCode::NEW);
    assert_eq!(s.address, "");
    assert_eq!(s.last_active, at(1));
    assert_eq!((s.bytes_got, s.bytes_sent), (0, 0));
}

#[test]
fn entering_reads_the_clock() {
    let mut map: StatusMap = HashMap::new();
    let before = SystemTime::now();
    register(&mut map, 7);
    let after = SystemTime::now();
    assert!(before <= map[&7].last_active && map[&7].last_active <= after);
}

#[test]
fn entering_again_starts_over() {
    let mut map = one(7);
    ws_to_tcp_status_at(&mut map, 7, &[5, 0], at(2));
    register_at(&mut map, 7, at(3));
    assert_eq!(map[&7].status, ConnectionStatusCode::NEW);
    assert_eq!(map[&7].bytes_got, 0);
    assert_eq!(map[&7].last_active, at(3));
}

#[test]
fn a_connection_is_taken_out() {
    let mut map = one(7);
    register_at(&mut map, 8, at(2));
    unregister(&mut map, 7);
    assert!(!map.contains_key(&7));
    assert!(map.contains_key(&8));
    unregister(&mut map, 9);
    assert_eq!(map.len(), 1);
}

#[test]
fn received_octets_are_counted() {
    let mut map = one(7);
    ws_to_tcp_status_at(&mut map, 7, &[1, 2, 3], at(2));
    ws_to_tcp_status_at(&mut map, 7, &[4], at(3));
    assert_eq!(map[&7].bytes_got, 4);
    assert_eq!(map[&7].bytes_sent, 0);
    assert_eq!(map[&7].status, ConnectionStatusCode::NEW);
    assert_eq!(map[&7].last_active, at(1));
}

#[test]
fn acknowledgement_connects() {
    let mut map = one(7);
    ws_to_tcp_status_at(&mut map, 7, &[5, 0], at(2));
    assert_eq!(map[&7].status, ConnectionStatusCode::CONNECTED);
    assert_eq!(map[&7].last_active, at(2));
    assert_eq!(map[&7].bytes_got, 2);
    let mut other = one(7);
    for x in [vec![5, 0, 0], vec![5, 1], vec![4, 0], vec![5]] {
        ws_to_tcp_status_at(&mut other, 7, &x, at(3));
    }
    assert_eq!(other[&7].status, ConnectionStatusCode::NEW);
}

#[test]
fn acknowledgement_reads_the_clock() {
    let mut map = one(7);
    let before = SystemTime::now();
    ws_to_tcp_status(&mut map, 7, &[5, 0]);
    let after = SystemTime::now();
    assert!(before <= map[&7].last_active && map[&7].last_active <= after);
}

#[test]
fn unknown_connections_are_not_entered() {
    let mut map = one(7);
    let mut label = String::from("xxx");
    ws_to_tcp_status_at(&mut map, 8, &[5, 0], at(2));
    tcp_to_ws_status(&mut map, &mut label, 8, &google(), 17);
    assert_eq!(map.len(), 1);
    assert_eq!(map[&7].bytes_got, 0);
    assert_eq!(label, "google.com:80");
}

#[test]
fn sent_octets_are_counted() {
    let mut map = one(7);
    let mut label = String::from("xxx");
    tcp_to_ws_status(&mut map, &mut label, 7, &vec![1, 2, 3, 4, 5], 5);
    tcp_to_ws_status(&mut map, &mut label, 7, &vec![1, 2, 3, 4, 5], 2);
    assert_eq!(map[&7].bytes_sent, 7);
    assert_eq!(map[&7].bytes_got, 0);
    assert_eq!(map[&7].address, "");
    assert_eq!(label, "xxx");
}

#[test]
fn connect_request_names_the_address() {
    let mut map = one(7);
    let mut label = String::from("xxx");
    tcp_to_ws_status(&mut map, &mut label, 7, &google(), 17);
    assert_eq!(map[&7].address, "google.com:80");
    assert_eq!(map[&7].bytes_sent, 17);
    assert_eq!(label, "google.com:80");
    tcp_to_ws_status(&mut map, &mut label, 7, &vec![5, 1, 9, 1, 10, 0, 0, 1, 1, 187], 10);
    assert_eq!(map[&7].address, "10.0.0.1:443");
    assert_eq!(label, "10.0.0.1:443");
}

#[test]
fn short_packets_are_no_requests() {
    let mut map = one(7);
    let mut label = String::from("xxx");
    tcp_to_ws_status(&mut map, &mut label, 7, &google(), 3);
    assert_eq!(label, "xxx");
    assert_eq!(map[&7].bytes_sent, 3);
}

#[test]
fn counters_have_room() {
    let mut map = one(7);
    map.get_mut(&7).unwrap().bytes_got = u32::MAX - 2;
    map.get_mut(&7).unwrap().bytes_sent = u32::MAX - 1;
    assert!(has_room_to_receive(&map, 7, 2));
    assert!(!has_room_to_receive(&map, 7, 3));
    assert!(has_room_to_send(&map, 7, 1));
    assert!(!has_room_to_send(&map, 7, 2));
    assert!(has_room_to_receive(&map, 8, 1000));
    assert!(has_room_to_send(&map, 8, 1000));
    assert!(has_room_to_send(&map, 7, 0x1_0000_0001));
}

#[test]
fn readable_packets() {
    assert!(is_readable(&google(), 17));
    assert!(is_readable(&vec![], 3));
    assert!(!is_readable(&vec![], 4));
    assert!(is_readable(&vec![4], 4));
    assert!(!is_readable(&vec![5], 4));
    assert!(is_readable(&vec![5, 0], 4));
    assert!(!is_readable(&vec![5, 1, 0], 4));
    assert!(!is_readable(&vec![5, 1, 0, 2], 4));
    assert!(!is_readable(&vec![5, 1, 0, 1, 127, 0, 0, 1], 8));
    assert!(!is_readable(&vec![5, 1, 0, 3, 1, 0xff, 0, 80], 8));
}

#[test]
fn counting_alone() {
    let mut map = one(7);
    count_sent(&mut map, 7, 5);
    count_sent(&mut map, 7, 0x1_0000_0002);
    count_sent(&mut map, 8, 5);
    assert_eq!(map[&7].bytes_sent, 7);
    assert_eq!(map[&7].address, "");
    assert_eq!(map.len(), 1);
}
