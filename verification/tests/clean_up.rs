use std::collections::HashMap;
use std::time::SystemTime;
use websocket_bridge::clean_up::{CleanUp, CleanUpAction, CleanUpEvent, CleanUpPhase};
use websocket_bridge::direction::Direction;
use websocket_bridge::status::{register_at, StatusMap};

const HANDSHAKE: Option<Direction> = Some(Direction::ServerSide);

fn map() -> StatusMap {
    let mut map: StatusMap = HashMap::new();
    register_at(&mut map, 7, SystemTime::UNIX_EPOCH);
    register_at(&mut map, 8, SystemTime::UNIX_EPOCH);
    map
}

/// The actions that a course of events leads to, and whether the connection is still there.
fn run(course: &[CleanUpEvent]) -> (Vec<CleanUpAction>, bool) {
    let mut map = map();
    let mut task = CleanUp::new(HANDSHAKE, 7);
    let mut actions = Vec::new();
    for event in course {
        assert!(task.is_accepted(*event));
        actions.push(task.step(*event, &mut map));
    }
    assert!(map.contains_key(&8));
    (actions, map.contains_key(&7))
}

#[test]
fn everything_is_closed() {
    assert_eq!(
        run(&[
            CleanUpEvent::Joined(true, Some(true)),
            CleanUpEvent::TcpReunited(true),
            CleanUpEvent::TcpShutDown(true),
            CleanUpEvent::WsReunited(true),
            CleanUpEvent::WsClosed(true),
        ]),
        (
            vec![
                CleanUpAction::ReuniteTcp,
                CleanUpAction::ShutDownTcp,
                CleanUpAction::ReuniteWs,
                CleanUpAction::CloseWs,
                CleanUpAction::Finish,
            ],
            false
        )
    );
}

#[test]
fn websocket_needs_no_close() {
    assert_eq!(
        run(&[
            CleanUpEvent::Joined(true, Some(false)),
            CleanUpEvent::TcpReunited(true),
            CleanUpEvent::TcpShutDown(true),
        ]),
        (
            vec![CleanUpAction::ReuniteTcp, CleanUpAction::ShutDownTcp, CleanUpAction::Finish],
            false
        )
    );
}

#[test]
fn failures_keep_the_connection() {
    for course in [
        vec![CleanUpEvent::Joined(false, Some(true))],
        vec![CleanUpEvent::Joined(true, None)],
        vec![CleanUpEvent::Joined(false, None)],
        vec![
            CleanUpEvent::Joined(true, Some(true)),
            CleanUpEvent::TcpReunited(true),
            CleanUpEvent::TcpShutDown(false),
        ],
        vec![
            CleanUpEvent::Joined(true, Some(true)),
            CleanUpEvent::TcpReunited(false),
            CleanUpEvent::WsReunited(true),
            CleanUpEvent::WsClosed(false),
        ],
    ] {
        let (actions, still_there) = run(&course);
        assert_eq!(actions.last(), Some(&CleanUpAction::Finish));
        assert!(still_there);
    }
}

#[test]
fn halves_that_stay_apart_are_passed_over() {
    assert_eq!(
        run(&[
            CleanUpEvent::Joined(true, Some(true)),
            CleanUpEvent::TcpReunited(false),
            CleanUpEvent::WsReunited(false),
        ]),
        (
            vec![CleanUpAction::ReuniteTcp, CleanUpAction::ReuniteWs, CleanUpAction::Finish],
            false
        )
    );
    assert_eq!(
        run(&[CleanUpEvent::Joined(true, Some(false)), CleanUpEvent::TcpReunited(false)]),
        (vec![CleanUpAction::ReuniteTcp, CleanUpAction::Finish], false)
    );
}

#[test]
fn the_connection_stays_until_the_end() {
    let (_, still_there) = run(&[
        CleanUpEvent::Joined(true, Some(true)),
        CleanUpEvent::TcpReunited(true),
        CleanUpEvent::TcpShutDown(true),
        CleanUpEvent::WsReunited(true),
    ]);
    assert!(still_there);
}

#[test]
fn clean_up_events_out_of_place() {
    let mut map = map();
    let mut task = CleanUp::new(HANDSHAKE, 7);
    assert!(!task.is_accepted(CleanUpEvent::TcpShutDown(true)));
    task.step(CleanUpEvent::Joined(false, None), &mut map);
    assert_eq!(task.phase, CleanUpPhase::Finished);
    assert!(!task.is_accepted(CleanUpEvent::Joined(true, Some(true))));
}

#[test]
fn the_way_the_websocket_is_closed() {
    for (handshake, expected) in [
        (Some(Direction::ServerSide), CleanUpAction::CloseWs),
        (Some(Direction::ClientSide), CleanUpAction::CloseWs),
        (None, CleanUpAction::ShutDownWs),
    ] {
        let mut map = map();
        let mut task = CleanUp::new(handshake, 7);
        task.step(CleanUpEvent::Joined(true, Some(true)), &mut map);
        task.step(CleanUpEvent::TcpReunited(true), &mut map);
        task.step(CleanUpEvent::TcpShutDown(true), &mut map);
        assert_eq!(task.step(CleanUpEvent::WsReunited(true), &mut map), expected);
        assert_eq!(task.step(CleanUpEvent::WsClosed(true), &mut map), CleanUpAction::Finish);
        assert!(!map.contains_key(&7));
    }
}
