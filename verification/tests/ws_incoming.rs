use std::collections::HashMap;
use std::time::{Duration, SystemTime};
use websocket_bridge::direction::Direction;
use websocket_bridge::status::{register_at, ConnectionStatusCode, StatusMap};
use websocket_bridge::ws_incoming::{WsAction, WsEvent, WsIncoming, WsMessage, WsPhase};

fn map_with(port: u16) -> StatusMap {
    let mut map: StatusMap = HashMap::new();
    register_at(&mut map, port, SystemTime::UNIX_EPOCH);
    map
}

fn at(seconds: u64) -> SystemTime {
    SystemTime::UNIX_EPOCH + Duration::from_secs(seconds)
}

fn step(task: WsIncoming, event: WsEvent, map: &mut StatusMap) -> (WsIncoming, WsAction) {
    assert!(task.is_accepted(&event));
    assert!(task.is_ready(&event, map));
    task.step_at(event, map, at(9))
}

fn binary(x: &[u8]) -> WsEvent {
    WsEvent::Message(WsMessage::Binary(x.to_vec()))
}

#[test]
fn plain_messages_are_written() {
    let mut map = map_with(7);
    let mut task = WsIncoming::new(None, 7);
    for x in [vec![1, 2, 3], vec![], vec![5, 1, 0]] {
        let (writing, action) = step(task, binary(&x), &mut map);
        assert_eq!(action, WsAction::WriteTcp);
        assert_eq!(writing.payload(), Some(&x));
        let (reading, action) = step(writing, WsEvent::Written(true), &mut map);
        assert_eq!(action, WsAction::Read);
        assert_eq!(reading.payload(), None);
        task = reading;
    }
    assert_eq!(map[&7].bytes_got, 6);
    assert_eq!(map[&7].bytes_sent, 0);
}

#[test]
fn client_side_writes_at_once() {
    let mut map = map_with(7);
    let task = WsIncoming::new(Some(Direction::ClientSide), 7);
    assert!(task.init_state);
    let (task, action) = step(task, binary(&[5, 0]), &mut map);
    assert_eq!(action, WsAction::WriteTcp);
    assert!(!task.init_state);
    assert_eq!(map[&7].status, ConnectionStatusCode::NEW);
    let (_, action) = step(task, WsEvent::Written(true), &mut map);
    assert_eq!(action, WsAction::Read);
    assert_eq!(map[&7].status, ConnectionStatusCode::CONNECTED);
    assert_eq!(map[&7].last_active, at(9));
}

#[test]
fn server_side_greets_before_the_first_message() {
    for greeted in [true, false] {
        let mut map = map_with(7);
        let task = WsIncoming::new(Some(Direction::ServerSide), 7);
        let (task, action) = step(task, binary(&[1, 2]), &mut map);
        assert_eq!(action, WsAction::WriteGreeting(vec![5, 1, 0]));
        assert_eq!(task.payload(), None);
        let (task, action) = step(task, WsEvent::GreetingWritten(greeted), &mut map);
        assert_eq!(action, WsAction::Signal);
        let (task, action) = step(task, WsEvent::Signalled, &mut map);
        assert_eq!(action, WsAction::WriteTcp);
        assert_eq!(task.payload(), Some(&vec![1, 2]));
        let (task, _) = step(task, WsEvent::Written(true), &mut map);
        assert_eq!(map[&7].bytes_got, 2);
        let (task, action) = step(task, binary(&[3]), &mut map);
        assert_eq!(action, WsAction::WriteTcp);
        assert_eq!(task.payload(), Some(&vec![3]));
    }
}

#[test]
fn other_messages_change_nothing() {
    let mut map = map_with(7);
    let task = WsIncoming::new(Some(Direction::ServerSide), 7);
    let (task, action) = step(task, WsEvent::Message(WsMessage::Close), &mut map);
    assert_eq!(action, WsAction::Read);
    let (task, action) = step(task, WsEvent::Message(WsMessage::Other), &mut map);
    assert_eq!(action, WsAction::Read);
    assert_eq!(task, WsIncoming::new(Some(Direction::ServerSide), 7));
}

#[test]
fn the_task_ends() {
    for event in [WsEvent::End, WsEvent::ReadFailed, WsEvent::Shutdown] {
        let mut map = map_with(7);
        let (task, action) = step(WsIncoming::new(None, 7), event, &mut map);
        assert_eq!(action, WsAction::Finish);
        assert_eq!(task.phase, WsPhase::Finished);
        assert!(!task.is_accepted(&WsEvent::End));
    }
}

#[test]
fn failed_write_ends_uncounted() {
    let mut map = map_with(7);
    let (task, _) = step(WsIncoming::new(None, 7), binary(&[5, 0]), &mut map);
    let (_, action) = step(task, WsEvent::Written(false), &mut map);
    assert_eq!(action, WsAction::Finish);
    assert_eq!(map[&7].bytes_got, 0);
    assert_eq!(map[&7].status, ConnectionStatusCode::NEW);
}

#[test]
fn step_reads_the_clock() {
    let mut map = map_with(7);
    let (task, _) = WsIncoming::new(None, 7).step(binary(&[5, 0]), &mut map);
    let before = SystemTime::now();
    let (_, action) = task.step(WsEvent::Written(true), &mut map);
    assert_eq!(action, WsAction::Read);
    assert!(before <= map[&7].last_active && map[&7].last_active <= SystemTime::now());
}

#[test]
fn messages_that_cannot_be_recorded() {
    let mut map = map_with(7);
    let (task, _) = step(WsIncoming::new(None, 7), binary(&[1]), &mut map);
    map.get_mut(&7).unwrap().bytes_got = u32::MAX;
    assert!(!task.is_ready(&WsEvent::Written(true), &map));
    assert!(task.is_ready(&WsEvent::Written(false), &map));
}

#[test]
fn websocket_events_out_of_place() {
    let task = WsIncoming::new(None, 7);
    assert!(!task.is_accepted(&WsEvent::Written(true)));
    assert!(!task.is_accepted(&WsEvent::Signalled));
    assert!(!task.is_accepted(&WsEvent::GreetingWritten(true)));
}

/// All actions besides reading for two messages.
fn deeds(handshake: Option<Direction>) -> Vec<WsAction> {
    let mut map = map_with(7);
    let mut task = WsIncoming::new(handshake, 7);
    let mut all = Vec::new();
    for x in [vec![1], vec![2]] {
        let mut event = binary(&x);
        loop {
            let (next, action) = step(task, event, &mut map);
            task = next;
            event = match action {
                WsAction::WriteGreeting(_) => WsEvent::GreetingWritten(true),
                WsAction::Signal => WsEvent::Signalled,
                WsAction::WriteTcp => WsEvent::Written(true),
                WsAction::Read | WsAction::Finish => {
                    break;
                }
            };
            all.push(action);
        }
    }
    all
}

#[test]
fn one_signal_at_the_server_side() {
    assert_eq!(
        deeds(Some(Direction::ServerSide)),
        vec![
            WsAction::WriteGreeting(vec![5, 1, 0]),
            WsAction::Signal,
            WsAction::WriteTcp,
            WsAction::WriteTcp,
        ]
    );
    let writes = vec![WsAction::WriteTcp, WsAction::WriteTcp];
    assert_eq!(deeds(Some(Direction::ClientSide)), writes);
    assert_eq!(deeds(None), writes);
}
