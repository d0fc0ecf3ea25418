use std::collections::HashMap;
use std::time::SystemTime;
use websocket_bridge::clean_up::{CleanUp, CleanUpAction, CleanUpEvent};
use websocket_bridge::communicate::{communicate, SetupAction, SetupError, TcpOrDestination};
use websocket_bridge::direction::Direction;
use websocket_bridge::serve::{
    is_headed, serve, serve_client_side, serve_separate, serve_server_side, websocket_url, Listener,
};
use websocket_bridge::status::{ConnectionStatusCode, StatusMap};
use websocket_bridge::tcp_incoming::{TcpAction, TcpEvent, TcpIncoming};
use websocket_bridge::ws_incoming::{WsAction, WsEvent, WsIncoming, WsMessage};

#[test]
fn urls() {
    assert_eq!(websocket_url("example.com:80"), "ws://example.com:80");
    assert_eq!(websocket_url("ws://example.com"), "ws://example.com");
    assert_eq!(websocket_url("wss://example.com/sub/path"), "wss://example.com/sub/path");
    assert_eq!(websocket_url("wsx"), "ws://wsx");
    assert_eq!(
        websocket_url("wsgate.example.com/sub/path"),
        "ws://wsgate.example.com/sub/path"
    );
    assert_eq!(websocket_url("wss.example.com:80"), "ws://wss.example.com:80");
    assert_eq!(websocket_url("ws:/example.com"), "ws://ws:/example.com");
    assert_eq!(websocket_url("wss://"), "wss://");
    assert_eq!(websocket_url("ws"), "ws://ws");
    assert_eq!(websocket_url("WS://example.com"), "ws://WS://example.com");
    assert_eq!(websocket_url("\u{e9}"), "ws://\u{e9}");
}

#[test]
fn url_of_a_url() {
    for dest in ["example.com:80", "ws://example.com", "wss://example.com", "wsgate", "w."] {
        let url = websocket_url(dest);
        assert_eq!(websocket_url(&url), url);
    }
}

#[test]
fn destinations_that_are_too_short() {
    assert!(!is_headed(""));
    assert!(!is_headed("w"));
    assert!(!is_headed("a\u{e9}"));
    assert!(!is_headed("\u{20ac}"));
    assert!(is_headed("ws"));
    assert!(is_headed("\u{e9}"));
}

#[test]
fn server_side_listener() {
    let mut map: StatusMap = HashMap::new();
    let l = Listener::new(Direction::ServerSide, Some(Direction::ServerSide), "a");
    for peer in [Some(7), None] {
        assert_eq!(
            l.accepted(1, peer, &mut map),
            Ok((TcpOrDestination::Tcp(1), TcpOrDestination::Dest("a".to_string())))
        );
    }
    assert!(map.is_empty());
}

#[test]
fn client_side_listener() {
    let mut map: StatusMap = HashMap::new();
    let l = Listener::new(Direction::ClientSide, None, "example.com");
    assert_eq!(
        l.accepted_at(1, Some(7), &mut map, SystemTime::UNIX_EPOCH),
        Ok((TcpOrDestination::Dest("ws://example.com".to_string()), TcpOrDestination::Tcp(1)))
    );
    assert_eq!(map.len(), 1);
    assert_eq!(map[&7].status, ConnectionStatusCode::NEW);
    assert_eq!(map[&7].last_active, SystemTime::UNIX_EPOCH);
    assert_eq!(l.accepted(1, None, &mut map), Err(SetupError::PeerAddr));
    assert_eq!(map.len(), 1);
    let before = SystemTime::now();
    assert!(l.accepted(1, Some(8), &mut map).is_ok());
    assert!(before <= map[&8].last_active);
}

#[test]
fn listeners_that_go_on() {
    let plain = Listener::new(Direction::ServerSide, None, "a");
    assert!(plain.goes_on(true));
    assert!(plain.goes_on(false));
    let strict = Listener::new(Direction::ServerSide, Some(Direction::ServerSide), "a");
    assert!(strict.goes_on(true));
    assert!(!strict.goes_on(false));
}

#[test]
fn a_connection_leaves_no_trace() {
    let mut map: StatusMap = HashMap::new();
    let mut label = String::from("xxx");
    let l = Listener::new(Direction::ClientSide, Some(Direction::ClientSide), "example.com");
    assert!(l.accepted(1, Some(7), &mut map).is_ok());
    assert!(l.accepted(2, Some(8), &mut map).is_ok());
    let mut tcp = TcpIncoming::new(l.handshake, 7);
    let action = tcp.step(TcpEvent::Read(1), &vec![9], &mut map, &mut label);
    assert_eq!(action, TcpAction::SendWs(vec![9]));
    let ws = WsIncoming::new(l.handshake, 7);
    let (ws, _) = ws.step(WsEvent::Message(WsMessage::Binary(vec![5, 0])), &mut map);
    let (_, action) = ws.step(WsEvent::Written(true), &mut map);
    assert_eq!(action, WsAction::Read);
    assert_eq!((map[&7].bytes_sent, map[&7].bytes_got), (1, 2));
    assert_eq!((map[&8].bytes_sent, map[&8].bytes_got), (0, 0));
    let mut clean_up = CleanUp::new(l.handshake, 7);
    clean_up.step(CleanUpEvent::Joined(true, Some(false)), &mut map);
    clean_up.step(CleanUpEvent::TcpReunited(true), &mut map);
    assert_eq!(
        clean_up.step(CleanUpEvent::TcpShutDown(true), &mut map),
        CleanUpAction::Finish
    );
    assert!(!map.contains_key(&7));
    assert!(map.contains_key(&8));
}

#[test]
fn listeners_of_each_kind() {
    let client = Direction::ClientSide;
    let server = Direction::ServerSide;
    assert_eq!(serve("example.com", client), Listener::new(client, None, "example.com"));
    assert_eq!(serve("a", server), Listener::new(server, None, "a"));
    assert_eq!(serve_server_side("a", server), Listener::new(server, Some(server), "a"));
    assert_eq!(serve_server_side("a", client), Listener::new(server, Some(client), "a"));
    let l = serve_client_side("example.com", client);
    assert_eq!(l.location, "ws://example.com");
    assert_eq!((l.side, l.handshake), (client, Some(client)));
    assert_eq!(serve_separate("ws://a", client), serve_client_side("ws://a", client));
    assert_eq!(serve_separate("a", server), serve_server_side("a", server));
}

#[test]
fn host_that_begins_like_a_scheme() {
    let mut map: StatusMap = HashMap::new();
    let l = serve_client_side("wsgate.example.com/sub/path", Direction::ClientSide);
    let (tcp_in, ws_in) = l.accepted(1, Some(7), &mut map).unwrap();
    let (_, action) = communicate(tcp_in, ws_in);
    assert_eq!(
        action,
        SetupAction::ConnectWs("ws://wsgate.example.com/sub/path".to_string())
    );
}

#[test]
fn the_relay_counts_both_ways() {
    let mut map: StatusMap = HashMap::new();
    let mut label = String::from("xxx");
    let l = serve("example.com", Direction::ClientSide);
    assert!(l.accepted(1, Some(7), &mut map).is_ok());
    assert!(l.accepted(2, Some(8), &mut map).is_ok());
    let mut tcp = TcpIncoming::new(l.handshake, 7);
    let mut ws = WsIncoming::new(l.handshake, 7);
    for (packet, message) in [(vec![5, 1, 0], vec![1, 2]), (vec![9], vec![5, 0])] {
        assert_ne!(map[&7].status, ConnectionStatusCode::CONNECTED);
        tcp.step(TcpEvent::Read(packet.len()), &packet, &mut map, &mut label);
        tcp.step(TcpEvent::Sent(true), &packet, &mut map, &mut label);
        ws = ws.step(WsEvent::Message(WsMessage::Binary(message)), &mut map).0;
        ws = ws.step(WsEvent::Written(true), &mut map).0;
    }
    assert_eq!((map[&7].bytes_sent, map[&7].bytes_got), (4, 4));
    assert_eq!(map[&7].status, ConnectionStatusCode::CONNECTED);
    assert_eq!((map[&8].bytes_sent, map[&8].bytes_got), (0, 0));
    assert_eq!(map.len(), 2);
}

#[test]
fn the_relay_counts_with_a_handshake() {
    for (answered, expected) in [(true, 1), (false, 4)] {
        let mut map: StatusMap = HashMap::new();
        let mut label = String::from("xxx");
        let l = serve_separate("example.com", Direction::ClientSide);
        assert!(l.accepted(1, Some(7), &mut map).is_ok());
        let mut tcp = TcpIncoming::new(l.handshake, 7);
        let ws = WsIncoming::new(l.handshake, 7);
        let greeting = vec![5, 1, 0];
        tcp.step(TcpEvent::Read(3), &greeting, &mut map, &mut label);
        let ws = ws.step(WsEvent::Message(WsMessage::Binary(vec![1, 2])), &mut map).0;
        tcp.step(TcpEvent::ReplyWritten(answered), &greeting, &mut map, &mut label);
        ws.step(WsEvent::Written(true), &mut map);
        if !answered {
            tcp.step(TcpEvent::Sent(true), &greeting, &mut map, &mut label);
        }
        tcp.step(TcpEvent::Read(1), &vec![9], &mut map, &mut label);
        assert_eq!((map[&7].bytes_sent, map[&7].bytes_got), (expected, 2));
    }
}
