use std::collections::HashMap;
use std::time::SystemTime;
use websocket_bridge::direction::Direction;
use websocket_bridge::status::{register_at, StatusMap};
use websocket_bridge::tcp_incoming::{TcpAction, TcpEvent, TcpIncoming, TcpPhase};

struct Run {
    task: TcpIncoming,
    map: StatusMap,
    label: String,
}

fn start(handshake: Option<Direction>) -> Run {
    let mut map: StatusMap = HashMap::new();
    register_at(&mut map, 7, SystemTime::UNIX_EPOCH);
    Run { task: TcpIncoming::new(handshake, 7), map, label: String::from("xxx") }
}

impl Run {
    fn step(&mut self, event: TcpEvent, buf: &[u8]) -> TcpAction {
        let buf = buf.to_vec();
        assert!(self.task.is_accepted(event));
        assert!(self.task.is_ready(event, &buf, &self.map));
        self.task.step(event, &buf, &mut self.map, &mut self.label)
    }

    fn read(&mut self, packet: &[u8]) -> TcpAction {
        let mut buf = packet.to_vec();
        buf.extend_from_slice(&[0; 32]);
        self.step(TcpEvent::Read(packet.len()), &buf)
    }
}

#[test]
fn plain_packets_are_passed_on() {
    let mut r = start(None);
    for packet in [vec![5, 1, 0], vec![5, 0], vec![1, 2, 3]] {
        assert_eq!(r.read(&packet), TcpAction::SendWs(packet));
        assert_eq!(r.step(TcpEvent::Sent(true), &[]), TcpAction::Read);
    }
    assert_eq!(r.map[&7].bytes_sent, 8);
}

#[test]
fn client_greeting_is_answered_and_kept_back() {
    let mut r = start(Some(Direction::ClientSide));
    assert_eq!(r.read(&[5, 1, 0]), TcpAction::WriteTcp(vec![5, 0]));
    assert_eq!(r.step(TcpEvent::ReplyWritten(true), &[]), TcpAction::Read);
    assert_eq!(r.map[&7].bytes_sent, 0);
    assert_eq!(r.read(&[5, 1, 0]), TcpAction::SendWs(vec![5, 1, 0]));
    assert_eq!(r.map[&7].bytes_sent, 3);
}

#[test]
fn client_greeting_is_passed_on_where_the_answer_fails() {
    for packet in [vec![5, 1, 0], vec![5, 2, 0, 1]] {
        let mut r = start(Some(Direction::ClientSide));
        assert_eq!(r.read(&packet), TcpAction::WriteTcp(vec![5, 0]));
        assert_eq!(
            r.step(TcpEvent::ReplyWritten(false), &[]),
            TcpAction::SendWs(packet.clone())
        );
        assert_eq!(r.map[&7].bytes_sent as usize, packet.len());
        assert_eq!(r.label, "xxx");
    }
}

#[test]
fn other_first_packet_is_passed_on() {
    let mut r = start(Some(Direction::ClientSide));
    assert_eq!(r.read(&[4, 1, 0]), TcpAction::SendWs(vec![4, 1, 0]));
    assert_eq!(r.step(TcpEvent::Sent(true), &[]), TcpAction::Read);
    assert_eq!(r.read(&[5, 1, 0]), TcpAction::SendWs(vec![5, 1, 0]));
}

#[test]
fn server_greeting_is_kept_back_once() {
    let mut r = start(Some(Direction::ServerSide));
    assert_eq!(r.read(&[5, 0]), TcpAction::Read);
    assert_eq!(r.map[&7].bytes_sent, 0);
    assert_eq!(r.read(&[5, 0]), TcpAction::SendWs(vec![5, 0]));
    assert_eq!(r.map[&7].bytes_sent, 2);
}

#[test]
fn other_first_answer_is_passed_on() {
    let mut r = start(Some(Direction::ServerSide));
    assert_eq!(r.read(&[5, 1]), TcpAction::SendWs(vec![5, 1]));
    assert_eq!(r.step(TcpEvent::Sent(true), &[]), TcpAction::Read);
    assert_eq!(r.read(&[5, 0]), TcpAction::SendWs(vec![5, 0]));
}

#[test]
fn connect_request_sets_the_label() {
    let mut r = start(Some(Direction::ClientSide));
    r.read(&[5, 1, 0]);
    r.step(TcpEvent::ReplyWritten(true), &[]);
    let request = vec![5, 1, 0, 1, 127, 0, 0, 1, 0, 80];
    assert_eq!(r.read(&request), TcpAction::SendWs(request));
    assert_eq!(r.label, "127.0.0.1:80");
    assert_eq!(r.map[&7].address, "127.0.0.1:80");
}

#[test]
fn closed_peer_closes_the_websocket() {
    let mut r = start(None);
    assert_eq!(r.step(TcpEvent::Read(0), &[]), TcpAction::SendClose);
    assert_eq!(r.step(TcpEvent::CloseSent(true), &[]), TcpAction::Finish(true));
    assert_eq!(r.task.phase, TcpPhase::Finished);
    assert!(!r.task.is_accepted(TcpEvent::Read(1)));
}

#[test]
fn failed_read_closes_the_websocket() {
    let mut r = start(Some(Direction::ServerSide));
    assert_eq!(r.step(TcpEvent::ReadFailed, &[]), TcpAction::SendClose);
    assert_eq!(r.step(TcpEvent::CloseSent(false), &[]), TcpAction::Finish(true));
}

#[test]
fn failed_send_closes_the_websocket() {
    let mut r = start(None);
    r.read(&[1]);
    assert_eq!(r.step(TcpEvent::Sent(false), &[]), TcpAction::SendClose);
    assert_eq!(r.step(TcpEvent::CloseSent(true), &[]), TcpAction::Finish(true));
}

#[test]
fn shutdown_ends_without_close() {
    let mut r = start(Some(Direction::ClientSide));
    assert_eq!(r.step(TcpEvent::Shutdown, &[]), TcpAction::Finish(false));
    assert!(!r.task.need_close);
}

#[test]
fn events_out_of_place() {
    let task = TcpIncoming::new(None, 7);
    assert!(!task.is_accepted(TcpEvent::Sent(true)));
    assert!(!task.is_accepted(TcpEvent::ReplyWritten(true)));
    assert!(!task.is_accepted(TcpEvent::CloseSent(true)));
}

#[test]
fn packets_that_cannot_be_handled() {
    let map: StatusMap = HashMap::new();
    let client = TcpIncoming::new(Some(Direction::ClientSide), 7);
    let plain = TcpIncoming::new(None, 7);
    let buf = vec![0; 2000];
    assert!(client.is_ready(TcpEvent::Read(1024), &buf, &map));
    assert!(!client.is_ready(TcpEvent::Read(1025), &buf, &map));
    assert!(plain.is_ready(TcpEvent::Read(1025), &buf, &map));
    assert!(!plain.is_ready(TcpEvent::Read(2001), &buf, &map));
    assert!(plain.is_ready(TcpEvent::Read(5), &vec![5, 1, 0, 9, 0], &map));
    let mut full = start(None);
    full.map.get_mut(&7).unwrap().bytes_sent = u32::MAX;
    assert!(!full.task.is_ready(TcpEvent::Read(1), &buf, &full.map));
}

#[test]
fn request_without_address_breaks_off() {
    for packet in [vec![5, 1, 0, 9, 0], vec![5, 1, 0, 3, 1, 0xff, 0, 80]] {
        let mut r = start(None);
        assert_eq!(r.read(&packet), TcpAction::Abort);
        assert_eq!(r.task.phase, TcpPhase::Aborted);
        assert_eq!(r.map[&7].bytes_sent as usize, packet.len());
        assert_eq!(r.map[&7].address, "");
        assert_eq!(r.label, "xxx");
        assert!(!r.task.is_accepted(TcpEvent::Read(1)));
        assert!(!r.task.is_accepted(TcpEvent::Shutdown));
    }
    let mut short = start(None);
    let buf = vec![5, 1, 0, 1, 127];
    assert_eq!(short.step(TcpEvent::Read(5), &buf), TcpAction::Abort);
}

#[test]
fn one_close_after_the_packets() {
    let mut r = start(Some(Direction::ServerSide));
    let mut sent = vec![r.read(&[5, 0]), r.read(&[1])];
    sent.push(r.step(TcpEvent::Sent(true), &[]));
    sent.push(r.read(&[2]));
    sent.push(r.step(TcpEvent::Sent(true), &[]));
    sent.push(r.step(TcpEvent::Read(0), &[]));
    sent.push(r.step(TcpEvent::CloseSent(false), &[]));
    sent.retain(|a| matches!(a, TcpAction::SendWs(_) | TcpAction::SendClose));
    assert_eq!(
        sent,
        vec![TcpAction::SendWs(vec![1]), TcpAction::SendWs(vec![2]), TcpAction::SendClose]
    );
}
