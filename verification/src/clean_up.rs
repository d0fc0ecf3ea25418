//! The end of a connection: its sockets are closed and it is taken out of the table.
//!
//! The task that owns the sockets performs one action at a time and reports what
//! came of it; the state here decides on the next one.
use vstd::prelude::*;
use crate::direction::Direction;
use crate::status::{table, unregister, StatusMap, StatusModel};

verus! {

/// Where the task stands.
#[derive(Debug, Clone, Copy, PartialEq, Eq, Structural)]
pub enum CleanUpPhase {
    /// Waiting for the two tasks of the connection.
    Joining,
    /// Putting the halves of the TCP socket together.
    ReunitingTcp,
    /// Shutting the TCP socket down.
    ShuttingDownTcp,
    /// Putting the halves of the websocket together.
    ReunitingWs,
    /// Closing the websocket, or shutting its stream down.
    ClosingWs,
    /// Done.
    Finished,
}

/// The state of the task.
#[derive(Debug, Clone, Copy, PartialEq, Eq, Structural)]
pub struct CleanUp {
    /// The end of the tunnel at which the SOCKS5 handshake is handled, if it is.
    pub handshake: Option<Direction>,
    /// The port of the TCP peer.
    pub port: u16,
    /// The websocket is to be closed from this side.
    pub need_close: bool,
    /// Where the task stands.
    pub phase: CleanUpPhase,
}

/// What happened.
#[derive(Debug, Clone, Copy, PartialEq, Eq, Structural)]
pub enum CleanUpEvent {
    /// The two tasks ended: whether the one that reads the websocket did so in order,
    /// and what the one that reads the TCP socket says of closing the websocket, if it
    /// ended in order.
    Joined(bool, Option<bool>),
    /// The halves of the TCP socket were put together, or could not be.
    TcpReunited(bool),
    /// The TCP socket was shut down, or could not be.
    TcpShutDown(bool),
    /// The halves of the websocket were put together, or could not be.
    WsReunited(bool),
    /// The websocket was closed or its stream shut down, or could not be.
    WsClosed(bool),
}

/// What to do next.
#[derive(Debug, Clone, Copy, PartialEq, Eq, Structural)]
pub enum CleanUpAction {
    /// Wait for the two tasks.
    Join,
    /// Put the halves of the TCP socket together.
    ReuniteTcp,
    /// Shut the TCP socket down.
    ShutDownTcp,
    /// Put the halves of the websocket together.
    ReuniteWs,
    /// Close the websocket by a close message without content.
    CloseWs,
    /// Shut the stream below the websocket down.
    ShutDownWs,
    /// End.
    Finish,
}

// ---------------------------------------------------------------------------
// Model
// ---------------------------------------------------------------------------

/// After this nothing more is closed and the connection stays in the table.
pub open spec fn fails(event: CleanUpEvent) -> bool {
    match event {
        CleanUpEvent::Joined(ws_to_tcp, tcp_to_ws) => !ws_to_tcp || tcp_to_ws is None,
        CleanUpEvent::TcpShutDown(done) => !done,
        CleanUpEvent::WsClosed(done) => !done,
        _ => false,
    }
}

impl CleanUp {
    /// The state at the start.
    pub open spec fn initial(handshake: Option<Direction>, port: u16) -> CleanUp {
        CleanUp { handshake, port, need_close: false, phase: CleanUpPhase::Joining }
    }

    /// The event can come where the task stands.
    pub open spec fn accepts(self, event: CleanUpEvent) -> bool {
        match self.phase {
            CleanUpPhase::Joining => event is Joined,
            CleanUpPhase::ReunitingTcp => event is TcpReunited,
            CleanUpPhase::ShuttingDownTcp => event is TcpShutDown,
            CleanUpPhase::ReunitingWs => event is WsReunited,
            CleanUpPhase::ClosingWs => event is WsClosed,
            CleanUpPhase::Finished => false,
        }
    }

    /// Where the task stands once the TCP socket is dealt with.
    pub open spec fn phase_after_tcp(self) -> CleanUpPhase {
        if self.need_close {
            CleanUpPhase::ReunitingWs
        } else {
            CleanUpPhase::Finished
        }
    }

    /// The state after an event.
    pub open spec fn next(self, event: CleanUpEvent) -> CleanUp {
        if fails(event) {
            CleanUp { phase: CleanUpPhase::Finished, ..self }
        } else {
            match event {
                CleanUpEvent::Joined(_, tcp_to_ws) => CleanUp {
                    need_close: tcp_to_ws->0,
                    phase: CleanUpPhase::ReunitingTcp,
                    ..self
                },
                CleanUpEvent::TcpReunited(done) => CleanUp {
                    phase: if done {
                        CleanUpPhase::ShuttingDownTcp
                    } else {
                        self.phase_after_tcp()
                    },
                    ..self
                },
                CleanUpEvent::TcpShutDown(_) => CleanUp { phase: self.phase_after_tcp(), ..self },
                CleanUpEvent::WsReunited(done) => CleanUp {
                    phase: if done {
                        CleanUpPhase::ClosingWs
                    } else {
                        CleanUpPhase::Finished
                    },
                    ..self
                },
                CleanUpEvent::WsClosed(_) => CleanUp { phase: CleanUpPhase::Finished, ..self },
            }
        }
    }

    /// What the task does where it stands. The websocket is closed by a message where a
    /// handshake is handled, and else by shutting its stream down.
    pub open spec fn output(self) -> CleanUpAction {
        match self.phase {
            CleanUpPhase::Joining => CleanUpAction::Join,
            CleanUpPhase::ReunitingTcp => CleanUpAction::ReuniteTcp,
            CleanUpPhase::ShuttingDownTcp => CleanUpAction::ShutDownTcp,
            CleanUpPhase::ReunitingWs => CleanUpAction::ReuniteWs,
            CleanUpPhase::ClosingWs => if self.handshake is Some {
                CleanUpAction::CloseWs
            } else {
                CleanUpAction::ShutDownWs
            },
            CleanUpPhase::Finished => CleanUpAction::Finish,
        }
    }

    /// The table of connections after an event.
    pub open spec fn table_after(self, event: CleanUpEvent, t: Map<u16, StatusModel>) -> Map<
        u16,
        StatusModel,
    > {
        if !fails(event) && self.next(event).phase is Finished {
            t.remove(self.port)
        } else {
            t
        }
    }
}

// ---------------------------------------------------------------------------
// Operations
// ---------------------------------------------------------------------------

impl CleanUp {
    /// The state at the start. The first action is to wait for the tasks.
    pub fn new(handshake: Option<Direction>, port: u16) -> (task: CleanUp)
        ensures
            task == CleanUp::initial(handshake, port),
    {
        CleanUp { handshake, port, need_close: false, phase: CleanUpPhase::Joining }
    }

    /// Whether the event can come where the task stands.
    pub fn is_accepted(&self, event: CleanUpEvent) -> (r: bool)
        ensures
            r == self.accepts(event),
    {
        match (self.phase, event) {
            (CleanUpPhase::Joining, CleanUpEvent::Joined(_, _)) => true,
            (CleanUpPhase::ReunitingTcp, CleanUpEvent::TcpReunited(_)) => true,
            (CleanUpPhase::ShuttingDownTcp, CleanUpEvent::TcpShutDown(_)) => true,
            (CleanUpPhase::ReunitingWs, CleanUpEvent::WsReunited(_)) => true,
            (CleanUpPhase::ClosingWs, CleanUpEvent::WsClosed(_)) => true,
            _ => false,
        }
    }

    /// Goes on to the websocket once the TCP socket is dealt with.
    fn go_on_after_tcp(&mut self, map: &mut StatusMap) -> (action: CleanUpAction)
        ensures
            *final(self) == (CleanUp { phase: old(self).phase_after_tcp(), ..*old(self) }),
            action == final(self).output(),
            table(final(map)@) == (if old(self).need_close {
                table(old(map)@)
            } else {
                table(old(map)@).remove(old(self).port)
            }),
    {
        if self.need_close {
            self.phase = CleanUpPhase::ReunitingWs;
            CleanUpAction::ReuniteWs
        } else {
            self.close_properly(map)
        }
    }

    /// Ends in order: the connection leaves the table.
    fn close_properly(&mut self, map: &mut StatusMap) -> (action: CleanUpAction)
        ensures
            *final(self) == (CleanUp { phase: CleanUpPhase::Finished, ..*old(self) }),
            action == CleanUpAction::Finish,
            table(final(map)@) == table(old(map)@).remove(old(self).port),
    {
        unregister(map, self.port);
        self.phase = CleanUpPhase::Finished;
        CleanUpAction::Finish
    }

    /// Handles an event.
    pub fn step(&mut self, event: CleanUpEvent, map: &mut StatusMap) -> (action: CleanUpAction)
        requires
            old(self).accepts(event),
        ensures
            *final(self) == old(self).next(event),
            action == final(self).output(),
            action is CloseWs <==> final(self).phase is ClosingWs && old(self).handshake is Some,
            action is ShutDownWs <==> final(self).phase is ClosingWs && old(self).handshake is None,
            table(final(map)@) == old(self).table_after(event, table(old(map)@)),
    {
        match event {
            CleanUpEvent::Joined(true, Some(need_close)) => {
                self.need_close = need_close;
                self.phase = CleanUpPhase::ReunitingTcp;
                CleanUpAction::ReuniteTcp
            },
            CleanUpEvent::TcpReunited(true) => {
                self.phase = CleanUpPhase::ShuttingDownTcp;
                CleanUpAction::ShutDownTcp
            },
            CleanUpEvent::TcpReunited(false) => self.go_on_after_tcp(map),
            CleanUpEvent::TcpShutDown(true) => self.go_on_after_tcp(map),
            CleanUpEvent::WsReunited(true) => {
                self.phase = CleanUpPhase::ClosingWs;
                match self.handshake {
                    Some(_) => CleanUpAction::CloseWs,
                    None => CleanUpAction::ShutDownWs,
                }
            },
            CleanUpEvent::WsReunited(false) => self.close_properly(map),
            CleanUpEvent::WsClosed(true) => self.close_properly(map),
            _ => {
                self.phase = CleanUpPhase::Finished;
                CleanUpAction::Finish
            },
        }
    }
}

// ---------------------------------------------------------------------------
// Laws
// ---------------------------------------------------------------------------

impl CleanUp {
    /// The state after a course of events.
    pub open spec fn run(self, course: Seq<CleanUpEvent>) -> CleanUp
        decreases course.len(),
    {
        if course.len() == 0 {
            self
        } else {
            self.run(course.drop_last()).next(course.last())
        }
    }

    /// Each event of the course can come where the task stands then.
    pub open spec fn legal(self, course: Seq<CleanUpEvent>) -> bool
        decreases course.len(),
    {
        course.len() == 0 || (self.legal(course.drop_last()) && self.run(
            course.drop_last(),
        ).accepts(course.last()))
    }

    /// The table of connections after the course.
    pub open spec fn table_run(
        self,
        course: Seq<CleanUpEvent>,
        t: Map<u16, StatusModel>,
    ) -> Map<u16, StatusModel>
        decreases course.len(),
    {
        if course.len() == 0 {
            t
        } else {
            self.run(course.drop_last()).table_after(
                course.last(),
                self.table_run(course.drop_last(), t),
            )
        }
    }
}

/// The connection leaves the table when the task has ended and nothing failed, and
/// not before. Where something failed it stays.
pub proof fn lemma_clean_up_takes_out(
    handshake: Option<Direction>,
    port: u16,
    course: Seq<CleanUpEvent>,
    t: Map<u16, StatusModel>,
)
    requires
        CleanUp::initial(handshake, port).legal(course),
    ensures
        ({
            let start = CleanUp::initial(handshake, port);
            let failed = exists|i: int| 0 <= i < course.len() && fails(#[trigger] course[i]);
            start.table_run(course, t) == (if start.run(course).phase is Finished && !failed {
                t.remove(port)
            } else {
                t
            })
        }),
{
    lemma_clean_up_course(handshake, port, course, t);
}

/// What each place in a course says of the events so far.
proof fn lemma_clean_up_course(
    handshake: Option<Direction>,
    port: u16,
    course: Seq<CleanUpEvent>,
    t: Map<u16, StatusModel>,
)
    requires
        CleanUp::initial(handshake, port).legal(course),
    ensures
        ({
            let start = CleanUp::initial(handshake, port);
            let state = start.run(course);
            let failed = exists|i: int| 0 <= i < course.len() && fails(#[trigger] course[i]);
            &&& state.port == port
            &&& state.phase !is Finished ==> !failed
            &&& start.table_run(course, t) == (if state.phase is Finished && !failed {
                t.remove(port)
            } else {
                t
            })
        }),
    decreases course.len(),
{
    if course.len() > 0 {
        let before = course.drop_last();
        lemma_clean_up_course(handshake, port, before, t);
        assert(forall|i: int| 0 <= i < before.len() ==> before[i] == course[i]);
        assert(course[course.len() - 1] == course.last());
    }
}

/// Where the task ends and nothing failed, the TCP socket was shut down unless its
/// halves could not be put together, and the websocket was closed if and only if it had
/// to be closed from this side and its halves could be put together.
pub proof fn lemma_clean_up_closes(
    handshake: Option<Direction>,
    port: u16,
    course: Seq<CleanUpEvent>,
)
    requires
        CleanUp::initial(handshake, port).legal(course),
        CleanUp::initial(handshake, port).run(course).phase is Finished,
        forall|i: int| 0 <= i < course.len() ==> !fails(#[trigger] course[i]),
    ensures
        course.contains(CleanUpEvent::TcpShutDown(true)) <==> !course.contains(
            CleanUpEvent::TcpReunited(false),
        ),
        course.contains(CleanUpEvent::WsClosed(true)) <==> course.contains(
            CleanUpEvent::Joined(true, Some(true)),
        ) && !course.contains(CleanUpEvent::WsReunited(false)),
{
    lemma_clean_up_contents(handshake, port, course);
}

/// What each place in a course without failures says of the events so far.
proof fn lemma_clean_up_contents(
    handshake: Option<Direction>,
    port: u16,
    course: Seq<CleanUpEvent>,
)
    requires
        CleanUp::initial(handshake, port).legal(course),
        forall|i: int| 0 <= i < course.len() ==> !fails(#[trigger] course[i]),
    ensures
        ({
            let state = CleanUp::initial(handshake, port).run(course);
            let joined = course.contains(CleanUpEvent::Joined(true, Some(true)));
            let apart = course.contains(CleanUpEvent::TcpReunited(false));
            let shut_down = course.contains(CleanUpEvent::TcpShutDown(true));
            let ws_apart = course.contains(CleanUpEvent::WsReunited(false));
            let closed = course.contains(CleanUpEvent::WsClosed(true));
            let tcp_is_next = state.phase is Joining || state.phase is ReunitingTcp
                || state.phase is ShuttingDownTcp;
            &&& joined == state.need_close
            &&& tcp_is_next ==> !apart && !shut_down
            &&& !tcp_is_next ==> apart == !shut_down
            &&& state.phase !is Finished ==> !ws_apart && !closed
            &&& state.phase is ReunitingWs || state.phase is ClosingWs ==> state.need_close
            &&& state.phase is Finished ==> closed == (state.need_close && !ws_apart)
            &&& ws_apart ==> state.need_close
        }),
    decreases course.len(),
{
    if course.len() > 0 {
        let before = course.drop_last();
        assert(forall|i: int| 0 <= i < before.len() ==> before[i] == course[i]);
        lemma_clean_up_contents(handshake, port, before);
        assert(course =~= before.push(course.last()));
        assert forall|e: CleanUpEvent| #[trigger] course.contains(e) == (before.contains(e) || e
            == course.last()) by {
            if before.contains(e) {
                let i = choose|i: int| 0 <= i < before.len() && before[i] == e;
                assert(course[i] == e);
            }
            if e == course.last() {
                assert(course[course.len() - 1] == e);
            }
            if course.contains(e) {
                let i = choose|i: int| 0 <= i < course.len() && course[i] == e;
                if i < before.len() {
                    assert(before[i] == e);
                }
            }
        }
    }
}

/// The task starts by waiting for the two tasks of the connection.
pub proof fn lemma_clean_up_start(handshake: Option<Direction>, port: u16)
    ensures
        ({
            let task = CleanUp::initial(handshake, port);
            &&& task.handshake == handshake
            &&& task.port == port
            &&& task.phase is Joining
            &&& task.output() is Join
        }),
{
}

/// Each action has its own outcomes, any of which can come, and after the end nothing does.
pub proof fn lemma_clean_up_accepts(task: CleanUp, event: CleanUpEvent)
    ensures
        task.accepts(event) <==> {
            ||| task.phase is Joining && event is Joined
            ||| task.phase is ReunitingTcp && event is TcpReunited
            ||| task.phase is ShuttingDownTcp && event is TcpShutDown
            ||| task.phase is ReunitingWs && event is WsReunited
            ||| task.phase is ClosingWs && event is WsClosed
        },
{
}

/// The two tasks must both have ended in order for anything to be closed. The one that read
/// the TCP socket says whether the websocket is to be closed.
pub proof fn lemma_clean_up_joined(
    task: CleanUp,
    ws_to_tcp: bool,
    tcp_to_ws: Option<bool>,
    t: Map<u16, StatusModel>,
)
    ensures
        ({
            let event = CleanUpEvent::Joined(ws_to_tcp, tcp_to_ws);
            let after = task.next(event);
            &&& ws_to_tcp && tcp_to_ws is Some ==> after == (CleanUp {
                need_close: tcp_to_ws->0,
                phase: CleanUpPhase::ReunitingTcp,
                ..task
            }) && after.output() is ReuniteTcp && !fails(event)
            &&& !ws_to_tcp || tcp_to_ws is None ==> after == (CleanUp {
                phase: CleanUpPhase::Finished,
                ..task
            }) && after.output() is Finish && fails(event)
            &&& task.table_after(event, t) == t
        }),
{
}

/// The TCP socket is shut down where its halves were put together. A failure to do so ends
/// the task with the connection still in the table. Otherwise the websocket comes next where
/// it is to be closed, and where it is not, the connection leaves the table.
pub proof fn lemma_clean_up_tcp(task: CleanUp, event: CleanUpEvent, t: Map<u16, StatusModel>)
    requires
        event is TcpReunited || event is TcpShutDown,
    ensures
        ({
            let after = task.next(event);
            let left = task.table_after(event, t);
            &&& event == CleanUpEvent::TcpReunited(true) ==> after == (CleanUp {
                phase: CleanUpPhase::ShuttingDownTcp,
                ..task
            }) && after.output() is ShutDownTcp && left == t
            &&& event == CleanUpEvent::TcpShutDown(false) ==> after == (CleanUp {
                phase: CleanUpPhase::Finished,
                ..task
            }) && after.output() is Finish && left == t
            &&& event == CleanUpEvent::TcpReunited(false) || event == CleanUpEvent::TcpShutDown(
                true,
            ) ==> if task.need_close {
                after == (CleanUp { phase: CleanUpPhase::ReunitingWs, ..task }) && after.output()
                    is ReuniteWs && left == t
            } else {
                after == (CleanUp { phase: CleanUpPhase::Finished, ..task }) && after.output()
                    is Finish && left == t.remove(task.port)
            }
            &&& fails(event) <==> event == CleanUpEvent::TcpShutDown(false)
        }),
{
}

/// The websocket is closed where its halves were put together: by a close message where a
/// handshake is handled, and else by shutting its stream down. The connection then leaves
/// the table unless that failed.
pub proof fn lemma_clean_up_ws(task: CleanUp, event: CleanUpEvent, t: Map<u16, StatusModel>)
    requires
        event is WsReunited || event is WsClosed,
    ensures
        ({
            let after = task.next(event);
            let left = task.table_after(event, t);
            &&& event == CleanUpEvent::WsReunited(true) ==> {
                &&& after == (CleanUp { phase: CleanUpPhase::ClosingWs, ..task })
                &&& task.handshake is Some ==> after.output() is CloseWs
                &&& task.handshake is None ==> after.output() is ShutDownWs
                &&& left == t
            }
            &&& event != CleanUpEvent::WsReunited(true) ==> after == (CleanUp {
                phase: CleanUpPhase::Finished,
                ..task
            }) && after.output() is Finish
            &&& event == CleanUpEvent::WsReunited(false) || event == CleanUpEvent::WsClosed(true)
                ==> left == t.remove(task.port)
            &&& event == CleanUpEvent::WsClosed(false) ==> left == t
            &&& fails(event) <==> event == CleanUpEvent::WsClosed(false)
        }),
{
}

} // verus!
