//! From the websocket to the TCP socket: what is done with each message that comes.
//!
//! The task that owns the sockets performs one action at a time and reports what
//! came of it; the state here decides on the next one.
use vstd::prelude::*;
use std::time::SystemTime;
use crate::direction::Direction;
use crate::proxy_socks5::{handle_server_side_socks5_request, lemma_greetings, ClientGreeting};
use crate::status::{
    counted, current_time, has_room_to_receive, is_ack, received, room_to_receive, table,
    ws_to_tcp_status_at, ConnectionStatusCode, StatusMap, StatusModel,
};

verus! {

/// A message of the websocket, as far as it matters here.
#[derive(Debug, PartialEq, Eq)]
pub enum WsMessage {
    /// A binary message.
    Binary(Vec<u8>),
    /// A close message.
    Close,
    /// Any other message.
    Other,
}

/// Where the task stands.
#[derive(Debug, PartialEq, Eq)]
pub enum WsPhase {
    /// Waiting for a message.
    Reading,
    /// Greeting the SOCKS5 server before the message is written.
    Greeting(Vec<u8>),
    /// Telling that the greeting was sent before the message is written.
    Signalling(Vec<u8>),
    /// Writing the message to the TCP socket.
    Writing(Vec<u8>),
    /// Done.
    Finished,
}

/// The state of the task.
#[derive(Debug, PartialEq, Eq)]
pub struct WsIncoming {
    /// The end of the tunnel at which the SOCKS5 handshake is handled, if it is.
    pub handshake: Option<Direction>,
    /// The port of the TCP peer.
    pub port: u16,
    /// No binary message has come yet and a handshake is expected.
    pub init_state: bool,
    /// Where the task stands.
    pub phase: WsPhase,
}

/// What happened.
#[derive(Debug, PartialEq, Eq)]
pub enum WsEvent {
    /// A message came.
    Message(WsMessage),
    /// The websocket ended.
    End,
    /// Reading failed.
    ReadFailed,
    /// The TCP side is done.
    Shutdown,
    /// The greeting was written, or could not be.
    GreetingWritten(bool),
    /// It was told that the greeting was sent.
    Signalled,
    /// The message was written, or could not be.
    Written(bool),
}

/// What to do next.
#[derive(Debug, PartialEq, Eq)]
pub enum WsAction {
    /// Read from the websocket, or hear that the TCP side is done.
    Read,
    /// Write all of this to the TCP socket.
    WriteGreeting(Vec<u8>),
    /// Tell that the greeting was sent.
    Signal,
    /// Write the message that the state holds to the TCP socket.
    WriteTcp,
    /// Tell the TCP side and end.
    Finish,
}

/// What a `WsPhase` stands for.
#[verifier::ext_equal]
pub enum WsPhaseModel {
    Reading,
    Greeting(Seq<u8>),
    Signalling(Seq<u8>),
    Writing(Seq<u8>),
    Finished,
}

/// What a `WsIncoming` stands for.
#[verifier::ext_equal]
pub struct WsModel {
    pub handshake: Option<Direction>,
    pub port: u16,
    pub init_state: bool,
    pub phase: WsPhaseModel,
}

/// What a `WsEvent` stands for.
#[verifier::ext_equal]
pub enum WsInput {
    Binary(Seq<u8>),
    Close,
    Other,
    End,
    ReadFailed,
    Shutdown,
    GreetingWritten(bool),
    Signalled,
    Written(bool),
}

/// What a `WsAction` stands for.
#[verifier::ext_equal]
pub enum WsOutput {
    Read,
    WriteGreeting(Seq<u8>),
    Signal,
    WriteTcp,
    Finish,
}

impl View for WsPhase {
    type V = WsPhaseModel;

    open spec fn view(&self) -> WsPhaseModel {
        match *self {
            WsPhase::Reading => WsPhaseModel::Reading,
            WsPhase::Greeting(x) => WsPhaseModel::Greeting(x@),
            WsPhase::Signalling(x) => WsPhaseModel::Signalling(x@),
            WsPhase::Writing(x) => WsPhaseModel::Writing(x@),
            WsPhase::Finished => WsPhaseModel::Finished,
        }
    }
}

impl View for WsIncoming {
    type V = WsModel;

    open spec fn view(&self) -> WsModel {
        WsModel {
            handshake: self.handshake,
            port: self.port,
            init_state: self.init_state,
            phase: self.phase@,
        }
    }
}

impl View for WsEvent {
    type V = WsInput;

    open spec fn view(&self) -> WsInput {
        match *self {
            WsEvent::Message(WsMessage::Binary(x)) => WsInput::Binary(x@),
            WsEvent::Message(WsMessage::Close) => WsInput::Close,
            WsEvent::Message(WsMessage::Other) => WsInput::Other,
            WsEvent::End => WsInput::End,
            WsEvent::ReadFailed => WsInput::ReadFailed,
            WsEvent::Shutdown => WsInput::Shutdown,
            WsEvent::GreetingWritten(done) => WsInput::GreetingWritten(done),
            WsEvent::Signalled => WsInput::Signalled,
            WsEvent::Written(done) => WsInput::Written(done),
        }
    }
}

impl View for WsAction {
    type V = WsOutput;

    open spec fn view(&self) -> WsOutput {
        match *self {
            WsAction::Read => WsOutput::Read,
            WsAction::WriteGreeting(b) => WsOutput::WriteGreeting(b@),
            WsAction::Signal => WsOutput::Signal,
            WsAction::WriteTcp => WsOutput::WriteTcp,
            WsAction::Finish => WsOutput::Finish,
        }
    }
}

// ---------------------------------------------------------------------------
// Model
// ---------------------------------------------------------------------------

/// The greeting that opens the way to the SOCKS5 server.
pub open spec fn opening() -> Seq<u8> {
    ClientGreeting::NoAuth.bytes()
}

impl WsModel {
    /// The state at the start.
    pub open spec fn initial(handshake: Option<Direction>, port: u16) -> WsModel {
        WsModel { handshake, port, init_state: handshake is Some, phase: WsPhaseModel::Reading }
    }

    /// What holds of the state at all times.
    pub open spec fn wf(self) -> bool {
        &&& self.init_state ==> self.handshake is Some
        &&& self.phase is Greeting || self.phase is Signalling ==> self.handshake == Some(
            Direction::ServerSide,
        ) && !self.init_state
        &&& self.phase is Writing ==> !self.init_state
    }

    /// The event can come where the task stands.
    pub open spec fn accepts(self, event: WsInput) -> bool {
        match self.phase {
            WsPhaseModel::Reading => {
                ||| event is Binary
                ||| event is Close
                ||| event is Other
                ||| event is End
                ||| event is ReadFailed
                ||| event is Shutdown
            },
            WsPhaseModel::Greeting(_) => event is GreetingWritten,
            WsPhaseModel::Signalling(_) => event is Signalled,
            WsPhaseModel::Writing(_) => event is Written,
            WsPhaseModel::Finished => false,
        }
    }

    /// The state after an event.
    pub open spec fn next(self, event: WsInput) -> WsModel {
        match event {
            WsInput::Binary(x) => WsModel {
                init_state: false,
                phase: if self.init_state && self.handshake == Some(Direction::ServerSide) {
                    WsPhaseModel::Greeting(x)
                } else {
                    WsPhaseModel::Writing(x)
                },
                ..self
            },
            WsInput::Close | WsInput::Other => self,
            WsInput::End | WsInput::ReadFailed | WsInput::Shutdown => WsModel {
                phase: WsPhaseModel::Finished,
                ..self
            },
            WsInput::GreetingWritten(_) => WsModel {
                phase: WsPhaseModel::Signalling(self.phase->Greeting_0),
                ..self
            },
            WsInput::Signalled => WsModel {
                phase: WsPhaseModel::Writing(self.phase->Signalling_0),
                ..self
            },
            WsInput::Written(done) => WsModel {
                phase: if done {
                    WsPhaseModel::Reading
                } else {
                    WsPhaseModel::Finished
                },
                ..self
            },
        }
    }

    /// What the task does where it stands.
    pub open spec fn output(self) -> WsOutput {
        match self.phase {
            WsPhaseModel::Reading => WsOutput::Read,
            WsPhaseModel::Greeting(_) => WsOutput::WriteGreeting(opening()),
            WsPhaseModel::Signalling(_) => WsOutput::Signal,
            WsPhaseModel::Writing(_) => WsOutput::WriteTcp,
            WsPhaseModel::Finished => WsOutput::Finish,
        }
    }

    /// The event can be handled: a message that was written can be recorded.
    pub open spec fn ready(self, event: WsInput, t: Map<u16, StatusModel>) -> bool {
        event == WsInput::Written(true) ==> room_to_receive(
            t,
            self.port,
            self.phase->Writing_0.len(),
        )
    }

    /// The table of connections after an event at the time `now`.
    pub open spec fn table_after(
        self,
        event: WsInput,
        t: Map<u16, StatusModel>,
        now: SystemTime,
    ) -> Map<u16, StatusModel> {
        if event == WsInput::Written(true) {
            received(t, self.port, self.phase->Writing_0, now)
        } else {
            t
        }
    }
}

// ---------------------------------------------------------------------------
// Operations
// ---------------------------------------------------------------------------

impl WsIncoming {
    /// The state at the start. The first action is to read.
    pub fn new(handshake: Option<Direction>, port: u16) -> (task: WsIncoming)
        ensures
            task@ == WsModel::initial(handshake, port),
            task@.wf(),
    {
        let init_state: bool = match handshake {
            Some(_) => true,
            None => false,
        };
        WsIncoming { handshake, port, init_state, phase: WsPhase::Reading }
    }

    /// Whether the event can come where the task stands.
    pub fn is_accepted(&self, event: &WsEvent) -> (r: bool)
        ensures
            r == self@.accepts(event@),
    {
        match (&self.phase, event) {
            (WsPhase::Reading, WsEvent::Message(_)) => true,
            (WsPhase::Reading, WsEvent::End) => true,
            (WsPhase::Reading, WsEvent::ReadFailed) => true,
            (WsPhase::Reading, WsEvent::Shutdown) => true,
            (WsPhase::Greeting(_), WsEvent::GreetingWritten(_)) => true,
            (WsPhase::Signalling(_), WsEvent::Signalled) => true,
            (WsPhase::Writing(_), WsEvent::Written(_)) => true,
            _ => false,
        }
    }

    /// Whether the event can be handled.
    pub fn is_ready(&self, event: &WsEvent, map: &StatusMap) -> (r: bool)
        requires
            self@.accepts(event@),
        ensures
            r == self@.ready(event@, table(map@)),
    {
        match (&self.phase, event) {
            (WsPhase::Writing(x), WsEvent::Written(true)) => has_room_to_receive(
                map,
                self.port,
                x.len(),
            ),
            _ => true,
        }
    }

    /// The message to write while the task is writing.
    pub fn payload(&self) -> (x: Option<&Vec<u8>>)
        ensures
            match self@.phase {
                WsPhaseModel::Writing(m) => x is Some && x->0@ == m,
                _ => x is None,
            },
    {
        match &self.phase {
            WsPhase::Writing(x) => Some(x),
            _ => None,
        }
    }

    /// Handles an event at the time `now`. A message that was written is recorded.
    pub fn step_at(self, event: WsEvent, map: &mut StatusMap, now: SystemTime) -> (r: (
        WsIncoming,
        WsAction,
    ))
        requires
            self@.wf(),
            self@.accepts(event@),
            self@.ready(event@, table(old(map)@)),
        ensures
            r.0@ == self@.next(event@),
            r.0@.wf(),
            r.1@ == r.0@.output(),
            event is Message && !(event->Message_0 is Binary) ==> r.0@ == self@ && r.1 is Read,
            r.0.phase is Finished <==> event is End || event is ReadFailed || event is Shutdown
                || event == WsEvent::Written(false),
            table(final(map)@) == self@.table_after(event@, table(old(map)@), now),
    {
        let handshake = self.handshake;
        let port: u16 = self.port;
        let init_state: bool = self.init_state;
        match (event, self.phase) {
            (WsEvent::Message(WsMessage::Binary(x)), _) => {
                let first_at_server: bool = match (init_state, handshake) {
                    (true, Some(Direction::ServerSide)) => true,
                    _ => false,
                };
                if first_at_server {
                    let greeting = handle_server_side_socks5_request(&x, x.len());
                    (
                        WsIncoming {
                            handshake,
                            port,
                            init_state: false,
                            phase: WsPhase::Greeting(x),
                        },
                        WsAction::WriteGreeting(greeting),
                    )
                } else {
                    (
                        WsIncoming {
                            handshake,
                            port,
                            init_state: false,
                            phase: WsPhase::Writing(x),
                        },
                        WsAction::WriteTcp,
                    )
                }
            },
            (WsEvent::Message(_), phase) => (
                WsIncoming { handshake, port, init_state, phase },
                WsAction::Read,
            ),
            (WsEvent::GreetingWritten(_), WsPhase::Greeting(x)) => (
                WsIncoming { handshake, port, init_state, phase: WsPhase::Signalling(x) },
                WsAction::Signal,
            ),
            (WsEvent::Signalled, WsPhase::Signalling(x)) => (
                WsIncoming { handshake, port, init_state, phase: WsPhase::Writing(x) },
                WsAction::WriteTcp,
            ),
            (WsEvent::Written(true), WsPhase::Writing(x)) => {
                ws_to_tcp_status_at(map, port, x.as_slice(), now);
                (
                    WsIncoming { handshake, port, init_state, phase: WsPhase::Reading },
                    WsAction::Read,
                )
            },
            _ => (
                WsIncoming { handshake, port, init_state, phase: WsPhase::Finished },
                WsAction::Finish,
            ),
        }
    }

    /// Handles an event now.
    pub fn step(self, event: WsEvent, map: &mut StatusMap) -> (r: (WsIncoming, WsAction))
        requires
            self@.wf(),
            self@.accepts(event@),
            self@.ready(event@, table(old(map)@)),
        ensures
            r.0@ == self@.next(event@),
            r.0@.wf(),
            r.1@ == r.0@.output(),
            exists|now: SystemTime|
                table(final(map)@) == #[trigger] self@.table_after(event@, table(old(map)@), now),
    {
        let now = current_time();
        let r = self.step_at(event, map, now);
        assert(table(map@) == self@.table_after(event@, table(old(map)@), now));
        r
    }
}

// ---------------------------------------------------------------------------
// Laws
// ---------------------------------------------------------------------------

/// A course of events, each with the time when it was handled.
pub type WsCourse = Seq<(WsInput, SystemTime)>;

impl WsModel {
    /// The state after a course of events.
    pub open spec fn run(self, course: WsCourse) -> WsModel
        decreases course.len(),
    {
        if course.len() == 0 {
            self
        } else {
            self.run(course.drop_last()).next(course.last().0)
        }
    }

    /// Each event of the course can come where the task stands then.
    pub open spec fn legal(self, course: WsCourse) -> bool
        decreases course.len(),
    {
        course.len() == 0 || (self.legal(course.drop_last()) && self.run(
            course.drop_last(),
        ).accepts(course.last().0))
    }

    /// All that the task hands to the TCP socket, in order.
    pub open spec fn handed(self, course: WsCourse) -> Seq<Seq<u8>>
        decreases course.len(),
    {
        if course.len() == 0 {
            Seq::empty()
        } else {
            let before = self.handed(course.drop_last());
            let state = self.run(course);
            match (course.last().0, state.phase) {
                (WsInput::Close, _) => before,
                (WsInput::Other, _) => before,
                (_, WsPhaseModel::Greeting(_)) => before.push(opening()),
                (_, WsPhaseModel::Writing(x)) => before.push(x),
                _ => before,
            }
        }
    }

    /// All that the task does besides reading, in order, until it ends.
    pub open spec fn deeds(self, course: WsCourse) -> Seq<WsOutput>
        decreases course.len(),
    {
        if course.len() == 0 {
            Seq::empty()
        } else {
            let before = self.deeds(course.drop_last());
            match self.run(course).output() {
                WsOutput::Read | WsOutput::Finish => before,
                deed => before.push(deed),
            }
        }
    }

    /// The table of connections after the course.
    pub open spec fn table_run(self, course: WsCourse, t: Map<u16, StatusModel>) -> Map<
        u16,
        StatusModel,
    >
        decreases course.len(),
    {
        if course.len() == 0 {
            t
        } else {
            let (event, now) = course.last();
            self.run(course.drop_last()).table_after(
                event,
                self.table_run(course.drop_last(), t),
                now,
            )
        }
    }

    /// Each event of the course can be handled when it comes.
    pub open spec fn always_ready(self, course: WsCourse, t: Map<u16, StatusModel>) -> bool
        decreases course.len(),
    {
        course.len() == 0 || (self.always_ready(course.drop_last(), t) && self.run(
            course.drop_last(),
        ).ready(course.last().0, self.table_run(course.drop_last(), t)))
    }
}

/// The binary messages that came in a course of events.
pub open spec fn messages(course: WsCourse) -> Seq<Seq<u8>>
    decreases course.len(),
{
    if course.len() == 0 {
        Seq::empty()
    } else {
        let before = messages(course.drop_last());
        match course.last().0 {
            WsInput::Binary(x) => before.push(x),
            _ => before,
        }
    }
}

/// Writing `n` times to the TCP socket.
pub open spec fn writes(n: nat) -> Seq<WsOutput> {
    Seq::new(n, |i: int| WsOutput::WriteTcp)
}

/// The number of octets in the messages that were written in a course of events, each
/// length as the counter takes it.
pub open spec fn written_len(start: WsModel, course: WsCourse) -> nat
    decreases course.len(),
{
    if course.len() == 0 {
        0
    } else {
        written_len(start, course.drop_last()) + (if course.last().0 == WsInput::Written(true) {
            counted(start.run(course.drop_last()).phase->Writing_0.len())
        } else {
            0
        })
    }
}

/// The acknowledgement of a SOCKS5 greeting was written in a course of events.
pub open spec fn acknowledged(start: WsModel, course: WsCourse) -> bool
    decreases course.len(),
{
    course.len() > 0 && (acknowledged(start, course.drop_last()) || (course.last().0
        == WsInput::Written(true) && is_ack(start.run(course.drop_last()).phase->Writing_0)))
}

/// The state stays well formed, and keeps its end of the tunnel and its port.
pub proof fn lemma_ws_run_wf(start: WsModel, course: WsCourse)
    requires
        start.wf(),
        start.legal(course),
    ensures
        start.run(course).wf(),
        start.run(course).handshake == start.handshake,
        start.run(course).port == start.port,
    decreases course.len(),
{
    if course.len() > 0 {
        lemma_ws_run_wf(start, course.drop_last());
    }
}

/// Every binary message is handed to the TCP socket unchanged and in order. At the
/// server side one greeting goes before the first, and while that is under way the
/// first message still waits. Other messages change nothing.
pub proof fn lemma_ws_hands_on_what_comes(
    handshake: Option<Direction>,
    port: u16,
    course: WsCourse,
)
    requires
        WsModel::initial(handshake, port).legal(course),
    ensures
        ({
            let start = WsModel::initial(handshake, port);
            let state = start.run(course);
            let came = messages(course);
            let handed = start.handed(course);
            if handshake == Some(Direction::ServerSide) && came.len() > 0 {
                if state.phase is Greeting || state.phase is Signalling {
                    came.len() == 1 && handed == seq![opening()]
                } else {
                    handed == seq![opening()] + came
                }
            } else {
                handed == came
            }
        }),
{
    lemma_ws_handing(handshake, port, course);
    lemma_ws_run_wf(WsModel::initial(handshake, port), course);
}

/// The task writes a greeting and then gives one signal before the first message is
/// written, at the server side and nowhere else. Each message is then written once.
pub proof fn lemma_ws_signals_once(handshake: Option<Direction>, port: u16, course: WsCourse)
    requires
        WsModel::initial(handshake, port).legal(course),
    ensures
        ({
            let start = WsModel::initial(handshake, port);
            let writes = writes(messages(course).len());
            let greeting = seq![WsOutput::WriteGreeting(opening())];
            start.deeds(course) == (if handshake == Some(Direction::ServerSide) && messages(
                course,
            ).len() > 0 {
                match start.run(course).phase {
                    WsPhaseModel::Greeting(_) => greeting,
                    WsPhaseModel::Signalling(_) => greeting.push(WsOutput::Signal),
                    _ => greeting.push(WsOutput::Signal) + writes,
                }
            } else {
                writes
            })
        }),
    decreases course.len(),
{
    let start = WsModel::initial(handshake, port);
    if course.len() > 0 {
        let before = course.drop_last();
        lemma_ws_signals_once(handshake, port, before);
        lemma_ws_handing(handshake, port, before);
        lemma_ws_run_wf(start, before);
        let n = messages(before).len();
        let led = seq![WsOutput::WriteGreeting(opening())].push(WsOutput::Signal);
        assert(writes(n).push(WsOutput::WriteTcp) =~= writes(n + 1));
        assert((led + writes(n)).push(WsOutput::WriteTcp) =~= led + writes(n + 1));
        if n == 0 {
            assert(writes(n).push(WsOutput::WriteGreeting(opening())) =~= seq![
                WsOutput::WriteGreeting(opening()),
            ]);
            assert(led + writes(0) =~= led);
        }
        if course.last().0 is Signalled {
            assert(led.push(WsOutput::WriteTcp) =~= led + writes(1));
        }
    } else {
        assert(start.deeds(course) =~= writes(0));
    }
}

proof fn lemma_ws_handing(handshake: Option<Direction>, port: u16, course: WsCourse)
    requires
        WsModel::initial(handshake, port).legal(course),
    ensures
        ({
            let start = WsModel::initial(handshake, port);
            let state = start.run(course);
            let came = messages(course);
            let handed = start.handed(course);
            &&& handshake is Some ==> (state.init_state <==> came.len() == 0)
            &&& state.phase matches WsPhaseModel::Greeting(x) ==> came =~= seq![x] && handed
                =~= seq![opening()]
            &&& state.phase matches WsPhaseModel::Signalling(x) ==> came =~= seq![x] && handed
                =~= seq![opening()]
            &&& state.phase !is Greeting && state.phase !is Signalling ==> handed =~= (if handshake
                == Some(Direction::ServerSide) && came.len() > 0 {
                seq![opening()] + came
            } else {
                came
            })
        }),
    decreases course.len(),
{
    let start = WsModel::initial(handshake, port);
    if course.len() > 0 {
        let before = course.drop_last();
        lemma_ws_handing(handshake, port, before);
        lemma_ws_run_wf(start, before);
        let state = start.run(before);
        let came = messages(before);
        let handed = start.handed(before);
        match course.last().0 {
            WsInput::Binary(x) => {
                assert(messages(course) == came.push(x));
                if state.init_state {
                    assert(came.push(x) =~= seq![x]);
                    assert(handed =~= Seq::<Seq<u8>>::empty());
                    if handshake == Some(Direction::ServerSide) {
                        assert(start.handed(course) =~= seq![opening()]);
                    } else {
                        assert(start.handed(course) =~= seq![x]);
                    }
                } else {
                    assert(start.handed(course) == handed.push(x));
                    assert((seq![opening()] + came).push(x) =~= seq![opening()] + came.push(x));
                }
            },
            WsInput::Signalled => {
                let x = state.phase->Signalling_0;
                assert(start.handed(course) =~= seq![opening()] + seq![x]);
            },
            _ => {},
        }
    }
}

/// The connection's count of received octets grows by the length of what was written. It
/// counts as connected once the acknowledgement of a greeting was written, and not
/// before.
pub proof fn lemma_ws_counts_what_it_writes(
    handshake: Option<Direction>,
    port: u16,
    course: WsCourse,
    t: Map<u16, StatusModel>,
)
    requires
        WsModel::initial(handshake, port).legal(course),
        WsModel::initial(handshake, port).always_ready(course, t),
        t.contains_key(port),
    ensures
        ({
            let start = WsModel::initial(handshake, port);
            let after = start.table_run(course, t);
            &&& after.contains_key(port)
            &&& after[port].bytes_got == t[port].bytes_got + written_len(start, course)
            &&& after[port].bytes_sent == t[port].bytes_sent
            &&& after[port].address == t[port].address
            &&& after[port].status == (if acknowledged(start, course) {
                ConnectionStatusCode::CONNECTED
            } else {
                t[port].status
            })
            &&& after.remove(port) == t.remove(port)
        }),
    decreases course.len(),
{
    let start = WsModel::initial(handshake, port);
    if course.len() > 0 {
        let before = course.drop_last();
        let (event, now) = course.last();
        lemma_ws_counts_what_it_writes(handshake, port, before, t);
        lemma_ws_run_wf(start, before);
        let state = start.run(before);
        let t1 = start.table_run(before, t);
        if event == WsInput::Written(true) {
            let x = state.phase->Writing_0;
            assert(received(t1, port, x, now).remove(port) =~= t1.remove(port));
        }
    }
}

/// The task starts by reading, and waits for a first message where a handshake is handled.
pub proof fn lemma_ws_start(handshake: Option<Direction>, port: u16)
    ensures
        ({
            let task = WsModel::initial(handshake, port);
            &&& task.handshake == handshake
            &&& task.port == port
            &&& task.init_state <==> handshake is Some
            &&& task.phase is Reading
        }),
{
}

/// Each action has its own outcomes, any of which can come, and after the end nothing does.
pub proof fn lemma_ws_accepts(task: WsModel, event: WsInput)
    ensures
        task.accepts(event) <==> {
            ||| task.phase is Reading && !(event is GreetingWritten || event is Signalled || event
                is Written)
            ||| task.phase is Greeting && event is GreetingWritten
            ||| task.phase is Signalling && event is Signalled
            ||| task.phase is Writing && event is Written
        },
{
}

/// A close or any other message that is not binary leaves the state and the table as they
/// are, and the task reads on.
pub proof fn lemma_ws_passes_over(
    task: WsModel,
    event: WsInput,
    t: Map<u16, StatusModel>,
    now: SystemTime,
)
    requires
        event is Close || event is Other,
    ensures
        task.next(event) == task,
        task.table_after(event, t, now) == t,
        task.phase is Reading ==> task.next(event).output() is Read,
{
}

/// The task ends only where the websocket ends, reading fails, the TCP side is done or a
/// message cannot be written, and always there.
pub proof fn lemma_ws_ends(task: WsModel, event: WsInput)
    requires
        task.phase !is Finished,
        task.accepts(event),
    ensures
        task.next(event).phase is Finished <==> event is End || event is ReadFailed || event
            is Shutdown || event == WsInput::Written(false),
        task.next(event).phase is Finished <==> task.next(event).output() is Finish,
        task.next(event).handshake == task.handshake,
        task.next(event).port == task.port,
        task.next(event).init_state <==> task.init_state && event !is Binary,
{
}

/// Over a whole course, the task has ended only where the last event was the end of the
/// websocket, a failed read, the end of the TCP side or a failed write.
pub proof fn lemma_ws_ends_only(handshake: Option<Direction>, port: u16, course: WsCourse)
    requires
        WsModel::initial(handshake, port).legal(course),
        WsModel::initial(handshake, port).run(course).phase is Finished,
    ensures
        course.len() > 0,
        course.last().0 is End || course.last().0 is ReadFailed || course.last().0 is Shutdown
            || course.last().0 == WsInput::Written(false),
{
}

/// A binary message is to be written as it is. At the server side the first one waits
/// until 5, 1, 0 was written, or could not be, and this was signalled.
pub proof fn lemma_ws_takes_message(
    task: WsModel,
    x: Seq<u8>,
    greeted: bool,
    t: Map<u16, StatusModel>,
    now: SystemTime,
)
    requires
        task.phase is Reading,
    ensures
        ({
            let first = task.next(WsInput::Binary(x));
            let second = first.next(WsInput::GreetingWritten(greeted));
            let third = second.next(WsInput::Signalled);
            &&& !first.init_state
            &&& task.table_after(WsInput::Binary(x), t, now) == t
            &&& if task.init_state && task.handshake == Some(Direction::ServerSide) {
                &&& first.output() is WriteGreeting
                &&& first.output()->WriteGreeting_0.len() == 3
                &&& first.output()->WriteGreeting_0[0] == 5
                &&& first.output()->WriteGreeting_0[1] == 1
                &&& first.output()->WriteGreeting_0[2] == 0
                &&& first.phase is Greeting
                &&& second.phase is Signalling
                &&& second.output() is Signal
                &&& third.phase == WsPhaseModel::Writing(x)
                &&& third.output() is WriteTcp
                &&& first.table_after(WsInput::GreetingWritten(greeted), t, now) == t
                &&& second.table_after(WsInput::Signalled, t, now) == t
            } else {
                first.phase == WsPhaseModel::Writing(x) && first.output() is WriteTcp
            }
        }),
{
    lemma_greetings(opening(), ClientGreeting::NoAuth);
}

/// A message that was written is recorded as it is, and the task reads on. One that could
/// not be written is not recorded.
pub proof fn lemma_ws_written(task: WsModel, x: Seq<u8>, t: Map<u16, StatusModel>, now: SystemTime)
    requires
        task.phase == WsPhaseModel::Writing(x),
    ensures
        task.next(WsInput::Written(true)) == (WsModel { phase: WsPhaseModel::Reading, ..task }),
        task.next(WsInput::Written(true)).output() is Read,
        task.table_after(WsInput::Written(true), t, now) == received(t, task.port, x, now),
        task.table_after(WsInput::Written(false), t, now) == t,
{
}

/// The task can handle whatever comes, but for a written message that the counter has no
/// room for. The end of reading changes no connection.
pub proof fn lemma_ws_ready(task: WsModel, event: WsInput, t: Map<u16, StatusModel>, now: SystemTime)
    requires
        task.accepts(event),
    ensures
        task.ready(event, t) <==> (event == WsInput::Written(true) ==> room_to_receive(
            t,
            task.port,
            task.phase->Writing_0.len(),
        )),
        event is End || event is ReadFailed || event is Shutdown ==> task.table_after(event, t, now)
            == t,
{
}

/// A state stands for what it holds.
pub proof fn lemma_ws_state_stands_for_itself(task: WsIncoming)
    ensures
        task@.handshake == task.handshake,
        task@.port == task.port,
        task@.init_state == task.init_state,
        match task.phase {
            WsPhase::Reading => task@.phase is Reading,
            WsPhase::Greeting(x) => task@.phase == WsPhaseModel::Greeting(x@),
            WsPhase::Signalling(x) => task@.phase == WsPhaseModel::Signalling(x@),
            WsPhase::Writing(x) => task@.phase == WsPhaseModel::Writing(x@),
            WsPhase::Finished => task@.phase is Finished,
        },
{
}

/// An event and an action stand for what they hold.
pub proof fn lemma_ws_events_stand_for_themselves(event: WsEvent, action: WsAction)
    ensures
        match event {
            WsEvent::Message(WsMessage::Binary(x)) => event@ == WsInput::Binary(x@),
            WsEvent::Message(WsMessage::Close) => event@ is Close,
            WsEvent::Message(WsMessage::Other) => event@ is Other,
            WsEvent::End => event@ is End,
            WsEvent::ReadFailed => event@ is ReadFailed,
            WsEvent::Shutdown => event@ is Shutdown,
            WsEvent::GreetingWritten(done) => event@ == WsInput::GreetingWritten(done),
            WsEvent::Signalled => event@ is Signalled,
            WsEvent::Written(done) => event@ == WsInput::Written(done),
        },
        match action {
            WsAction::Read => action@ is Read,
            WsAction::WriteGreeting(b) => action@ == WsOutput::WriteGreeting(b@),
            WsAction::Signal => action@ is Signal,
            WsAction::WriteTcp => action@ is WriteTcp,
            WsAction::Finish => action@ is Finish,
        },
{
}

} // verus!
