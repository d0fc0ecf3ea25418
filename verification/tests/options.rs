use websocket_bridge::direction::Direction;
use websocket_bridge::manager::WebsocketConnectionManager;
use websocket_bridge::options::{direction, hello, level, stat_port, Level};

#[test]
fn levels() {
    assert_eq!(level(0), Level::Error);
    assert_eq!(level(1), Level::Warn);
    assert_eq!(level(2), Level::Info);
    assert_eq!(level(3), Level::Debug);
    assert_eq!(level(4), Level::Trace);
    assert_eq!(level(5), Level::Trace);
    assert_eq!(level(u64::MAX), Level::Trace);
}

#[test]
fn modes() {
    assert_eq!(direction(&"ws_to_tcp".to_string()), Some(Direction::ServerSide));
    assert_eq!(direction(&"tcp_to_ws".to_string()), Some(Direction::ClientSide));
    assert_eq!(direction(&"WS_TO_TCP".to_string()), None);
    assert_eq!(direction(&String::new()), None);
}

#[test]
fn status_ports() {
    assert_eq!(stat_port("8080"), Some(8080));
    assert_eq!(stat_port(" 8080\n"), Some(8080));
    assert_eq!(stat_port("+8080"), Some(8080));
    assert_eq!(stat_port("65536"), None);
    assert_eq!(stat_port("80 80"), None);
    assert_eq!(stat_port(""), None);
    assert_eq!(stat_port("-1"), None);
}

#[test]
fn greeting_page() {
    assert_eq!(hello("world"), "Hello, world!");
    assert_eq!(hello(""), "Hello, !");
}

#[test]
fn managers() {
    let m = WebsocketConnectionManager::new("ws://example.com".to_string());
    assert_eq!(m.url(), "ws://example.com");
    assert!(m.is_valid());
    assert!(!m.has_broken());
}
