use std::collections::HashMap;
use websocket_bridge::direction::Direction;
use websocket_bridge::status::StatusMap;
use websocket_bridge::tcp_incoming::{TcpAction, TcpEvent, TcpIncoming};
use websocket_bridge::ws_incoming::{WsAction, WsEvent, WsIncoming, WsMessage};

/// Sends packets through both ends: what the far TCP socket is handed, and what the near
/// one is answered.
fn through(
    from: Option<Direction>,
    to: Option<Direction>,
    packets: &[Vec<u8>],
) -> (Vec<Vec<u8>>, Vec<Vec<u8>>) {
    through_if(true, from, to, packets)
}

/// The same, where the answer to a greeting can be written, or not.
fn through_if(
    answer_written: bool,
    from: Option<Direction>,
    to: Option<Direction>,
    packets: &[Vec<u8>],
) -> (Vec<Vec<u8>>, Vec<Vec<u8>>) {
    let mut map: StatusMap = HashMap::new();
    let mut label = String::new();
    let mut near = TcpIncoming::new(from, 1);
    let mut far = WsIncoming::new(to, 2);
    let mut handed = Vec::new();
    let mut answered = Vec::new();
    for packet in packets {
        let mut action = near.step(TcpEvent::Read(packet.len()), packet, &mut map, &mut label);
        if let TcpAction::WriteTcp(answer) = action {
            answered.push(answer);
            let event = TcpEvent::ReplyWritten(answer_written);
            action = near.step(event, packet, &mut map, &mut label);
        }
        match action {
            TcpAction::SendWs(message) => {
                near.step(TcpEvent::Sent(true), packet, &mut map, &mut label);
                let event = WsEvent::Message(WsMessage::Binary(message));
                let (mut task, mut action) = far.step(event, &mut map);
                if let WsAction::WriteGreeting(greeting) = action {
                    handed.push(greeting);
                    let (next, _) = task.step(WsEvent::GreetingWritten(true), &mut map);
                    let (next, next_action) = next.step(WsEvent::Signalled, &mut map);
                    task = next;
                    action = next_action;
                }
                assert_eq!(action, WsAction::WriteTcp);
                handed.push(task.payload().unwrap().clone());
                far = task.step(WsEvent::Written(true), &mut map).0;
            }
            _ => {}
        }
    }
    (handed, answered)
}

#[test]
fn plain_tunnel_is_transparent() {
    let packets = vec![vec![5, 1, 0], vec![5, 0], vec![1, 2, 3]];
    assert_eq!(through(None, None, &packets), (packets, vec![]));
}

#[test]
fn to_the_server() {
    let packets = vec![vec![5, 1, 0], vec![5, 1, 0, 1, 127, 0, 0, 1, 0, 80], vec![7]];
    let (handed, answered) =
        through(Some(Direction::ClientSide), Some(Direction::ServerSide), &packets);
    assert_eq!(handed, packets);
    assert_eq!(answered, vec![vec![5, 0]]);
}

#[test]
fn to_the_server_after_another_greeting() {
    let packets = vec![vec![5, 2, 0, 1], vec![7]];
    let (handed, answered) =
        through(Some(Direction::ClientSide), Some(Direction::ServerSide), &packets);
    assert_eq!(handed, vec![vec![5, 1, 0], vec![7]]);
    assert_eq!(answered, vec![vec![5, 0]]);
}

#[test]
fn to_the_client() {
    let packets = vec![vec![5, 0], vec![5, 0, 0, 1, 0, 0, 0, 0, 0, 0], vec![8]];
    let (handed, answered) =
        through(Some(Direction::ServerSide), Some(Direction::ClientSide), &packets);
    assert_eq!(handed, packets[1..].to_vec());
    assert!(answered.is_empty());
}

#[test]
fn to_the_server_without_a_greeting() {
    let packets = vec![vec![4, 1, 0], vec![5, 1, 0]];
    let (handed, answered) =
        through(Some(Direction::ClientSide), Some(Direction::ServerSide), &packets);
    assert_eq!(handed, vec![vec![5, 1, 0], vec![4, 1, 0], vec![5, 1, 0]]);
    assert!(answered.is_empty());
}

#[test]
fn to_the_server_where_the_answer_fails() {
    let packets = vec![vec![5, 1, 0], vec![7]];
    let sides = (Some(Direction::ClientSide), Some(Direction::ServerSide));
    let (handed, _) = through_if(false, sides.0, sides.1, &packets);
    assert_eq!(handed, vec![vec![5, 1, 0], vec![5, 1, 0], vec![7]]);
}

#[test]
fn nothing_to_the_server_after_a_greeting_alone() {
    let packets = vec![vec![5, 1, 0]];
    let (handed, answered) =
        through(Some(Direction::ClientSide), Some(Direction::ServerSide), &packets);
    assert!(handed.is_empty());
    assert_eq!(answered, vec![vec![5, 0]]);
}

#[test]
fn to_the_client_without_an_answer() {
    let packets = vec![vec![5, 1], vec![5, 0]];
    let (handed, _) =
        through(Some(Direction::ServerSide), Some(Direction::ClientSide), &packets);
    assert_eq!(handed, packets);
}
