use websocket_bridge::communicate::{
    communicate, CloseFrame, Communicate, SetupAction, SetupError, SetupEvent, TcpOrDestination,
};

fn tcp(socket: u32) -> TcpOrDestination<u32> {
    TcpOrDestination::Tcp(socket)
}

fn dest(location: &str) -> TcpOrDestination<u32> {
    TcpOrDestination::Dest(location.to_string())
}

/// All actions of a setup, the first one included.
fn run(
    tcp_in: TcpOrDestination<u32>,
    ws_in: TcpOrDestination<u32>,
    course: Vec<SetupEvent<u32>>,
) -> (Communicate<u32>, Vec<SetupAction<u32>>) {
    let (mut state, first) = communicate(tcp_in, ws_in);
    let mut actions = vec![first];
    for event in course {
        assert!(state.is_accepted(&event));
        let (next, action) = state.step(event);
        state = next;
        actions.push(action);
    }
    (state, actions)
}

#[test]
fn server_side_setup() {
    let (state, actions) = run(
        tcp(1),
        dest("example.com:80"),
        vec![
            SetupEvent::WsOpened(true),
            SetupEvent::TcpConnected(Some(2)),
            SetupEvent::Peer(Some(80)),
        ],
    );
    assert_eq!(state, Communicate::Ready(80));
    assert_eq!(
        actions,
        vec![
            SetupAction::AcceptWs(1),
            SetupAction::ConnectTcp("example.com:80".to_string()),
            SetupAction::AskPeer,
            SetupAction::Relay(2, 80),
        ]
    );
}

#[test]
fn client_side_setup() {
    let (state, actions) = run(
        dest("ws://example.com"),
        tcp(1),
        vec![SetupEvent::WsOpened(true), SetupEvent::Peer(Some(5000))],
    );
    assert_eq!(state, Communicate::Ready(5000));
    assert_eq!(
        actions,
        vec![
            SetupAction::ConnectWs("ws://example.com".to_string()),
            SetupAction::AskPeer,
            SetupAction::Relay(1, 5000),
        ]
    );
}

#[test]
fn the_socket_is_held_while_its_peer_is_asked() {
    let (state, _) = run(dest("ws://x"), tcp(1), vec![SetupEvent::WsOpened(true)]);
    assert_eq!(state.tcp(), Some(&1));
    let (state, _) = run(dest("ws://x"), tcp(1), vec![]);
    assert_eq!(state.tcp(), None);
}

#[test]
fn websocket_is_not_accepted() {
    let (state, actions) = run(tcp(1), dest("x"), vec![SetupEvent::WsOpened(false)]);
    assert_eq!(state, Communicate::Failed(SetupError::AcceptWs));
    assert_eq!(
        actions,
        vec![SetupAction::AcceptWs(1), SetupAction::Fail(SetupError::AcceptWs)]
    );
}

#[test]
fn websocket_is_not_connected() {
    let (_, actions) = run(
        dest("ws://x"),
        tcp(1),
        vec![SetupEvent::WsOpened(false), SetupEvent::TcpShutDown(true)],
    );
    assert_eq!(
        actions,
        vec![
            SetupAction::ConnectWs("ws://x".to_string()),
            SetupAction::ShutDownTcp(1),
            SetupAction::Fail(SetupError::ConnectWs),
        ]
    );
    let (state, _) = run(
        dest("ws://x"),
        tcp(1),
        vec![SetupEvent::WsOpened(false), SetupEvent::TcpShutDown(false)],
    );
    assert_eq!(state, Communicate::Failed(SetupError::ShutDownTcp));
    let (state, _) = run(dest("ws://x"), dest("y"), vec![SetupEvent::WsOpened(false)]);
    assert_eq!(state, Communicate::Failed(SetupError::ConnectWs));
}

#[test]
fn unreachable_destination_is_told() {
    for told in [true, false] {
        let (state, actions) = run(
            tcp(1),
            dest("x"),
            vec![
                SetupEvent::WsOpened(true),
                SetupEvent::TcpConnected(None),
                SetupEvent::CloseSent(told),
                SetupEvent::Drained,
            ],
        );
        assert_eq!(state, Communicate::Failed(SetupError::ConnectTcp));
        assert_eq!(
            actions,
            vec![
                SetupAction::AcceptWs(1),
                SetupAction::ConnectTcp("x".to_string()),
                SetupAction::SendClose(CloseFrame {
                    code: 1011,
                    reason: "Could not connect to destination.".to_string(),
                }),
                SetupAction::Drain,
                SetupAction::Fail(SetupError::ConnectTcp),
            ]
        );
    }
}

#[test]
fn unknown_peer() {
    let (state, actions) = run(
        dest("ws://x"),
        tcp(1),
        vec![SetupEvent::WsOpened(true), SetupEvent::Peer(None)],
    );
    assert_eq!(state, Communicate::Failed(SetupError::PeerAddr));
    assert_eq!(actions.last(), Some(&SetupAction::Fail(SetupError::PeerAddr)));
}

#[test]
fn setup_events_out_of_place() {
    let (state, _) = run(tcp(1), dest("x"), vec![]);
    assert!(!state.is_accepted(&SetupEvent::Drained));
    assert!(!state.is_accepted(&SetupEvent::Peer(Some(1))));
    let (state, _) = run(tcp(1), dest("x"), vec![SetupEvent::WsOpened(false)]);
    assert!(!state.is_accepted(&SetupEvent::WsOpened(true)));
}
