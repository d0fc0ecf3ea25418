//! The setup of a connection: a websocket on one side, a TCP socket on the other.
//!
//! The task that owns the sockets performs one action at a time and reports what
//! came of it; the state here decides on the next one.
use vstd::prelude::*;

verus! {

/// A socket that is there already, or the location to connect to.
#[derive(Debug, PartialEq, Eq)]
pub enum TcpOrDestination<S> {
    /// A socket.
    Tcp(S),
    /// A location.
    Dest(String),
}

/// Why a connection could not be set up.
#[derive(Debug, Clone, Copy, PartialEq, Eq, Structural)]
pub enum SetupError {
    /// The websocket could not be accepted on the socket.
    AcceptWs,
    /// The websocket could not be connected.
    ConnectWs,
    /// The websocket could not be connected, and then the TCP socket not shut down.
    ShutDownTcp,
    /// The TCP socket could not be connected.
    ConnectTcp,
    /// The TCP socket does not know its peer.
    PeerAddr,
}

/// The content of a close message.
#[derive(Debug, PartialEq, Eq)]
pub struct CloseFrame {
    /// The code.
    pub code: u16,
    /// The reason.
    pub reason: String,
}

/// How far the setup has come.
#[derive(Debug, PartialEq, Eq)]
pub enum Communicate<S> {
    /// Accepting the websocket on a socket.
    AcceptingWs(TcpOrDestination<S>),
    /// Connecting the websocket to a location.
    ConnectingWs(TcpOrDestination<S>),
    /// Shutting the TCP socket down, for want of a websocket.
    ShuttingDownTcp,
    /// Connecting the TCP socket.
    ConnectingTcp,
    /// Sending a close message to the websocket, for want of a TCP socket.
    SendingClose,
    /// Reading what still comes from the websocket.
    Draining,
    /// Asking the TCP socket for its peer.
    AskingPeer(S),
    /// Both are there. The port is that of the TCP peer.
    Ready(u16),
    /// The setup failed.
    Failed(SetupError),
}

/// What happened.
#[derive(Debug, PartialEq, Eq)]
pub enum SetupEvent<S> {
    /// The websocket was opened, or could not be.
    WsOpened(bool),
    /// The TCP socket was shut down, or could not be.
    TcpShutDown(bool),
    /// The TCP socket was connected, or could not be.
    TcpConnected(Option<S>),
    /// The close message was sent, or could not be.
    CloseSent(bool),
    /// The websocket has nothing more to read.
    Drained,
    /// The port of the TCP peer, if there is one.
    Peer(Option<u16>),
}

/// What to do next.
#[derive(Debug, PartialEq, Eq)]
pub enum SetupAction<S> {
    /// Accept a websocket on this socket.
    AcceptWs(S),
    /// Connect a websocket to this location.
    ConnectWs(String),
    /// Shut this TCP socket down.
    ShutDownTcp(S),
    /// Connect a TCP socket to this location.
    ConnectTcp(String),
    /// Send this close message to the websocket.
    SendClose(CloseFrame),
    /// Read from the websocket until it ends.
    Drain,
    /// Ask the TCP socket that the state holds for its peer.
    AskPeer,
    /// Relay between the websocket and this TCP socket, whose peer has this port.
    Relay(S, u16),
    /// End with this error.
    Fail(SetupError),
}

/// What a `TcpOrDestination` stands for.
#[verifier::ext_equal]
pub enum SourceModel<S> {
    Tcp(S),
    Dest(Seq<char>),
}

/// What a `CloseFrame` stands for.
#[verifier::ext_equal]
pub struct FrameModel {
    pub code: u16,
    pub reason: Seq<char>,
}

/// What a `Communicate` stands for.
#[verifier::ext_equal]
pub enum SetupModel<S> {
    AcceptingWs(SourceModel<S>),
    ConnectingWs(SourceModel<S>),
    ShuttingDownTcp,
    ConnectingTcp,
    SendingClose,
    Draining,
    AskingPeer(S),
    Ready(u16),
    Failed(SetupError),
}

/// What a `SetupAction` stands for.
#[verifier::ext_equal]
pub enum SetupOutput<S> {
    AcceptWs(S),
    ConnectWs(Seq<char>),
    ShutDownTcp(S),
    ConnectTcp(Seq<char>),
    SendClose(FrameModel),
    Drain,
    AskPeer,
    Relay(S, u16),
    Fail(SetupError),
}

impl<S> View for TcpOrDestination<S> {
    type V = SourceModel<S>;

    open spec fn view(&self) -> SourceModel<S> {
        match *self {
            TcpOrDestination::Tcp(socket) => SourceModel::Tcp(socket),
            TcpOrDestination::Dest(location) => SourceModel::Dest(location@),
        }
    }
}

impl View for CloseFrame {
    type V = FrameModel;

    open spec fn view(&self) -> FrameModel {
        FrameModel { code: self.code, reason: self.reason@ }
    }
}

impl<S> View for Communicate<S> {
    type V = SetupModel<S>;

    open spec fn view(&self) -> SetupModel<S> {
        match *self {
            Communicate::AcceptingWs(ws_in) => SetupModel::AcceptingWs(ws_in@),
            Communicate::ConnectingWs(ws_in) => SetupModel::ConnectingWs(ws_in@),
            Communicate::ShuttingDownTcp => SetupModel::ShuttingDownTcp,
            Communicate::ConnectingTcp => SetupModel::ConnectingTcp,
            Communicate::SendingClose => SetupModel::SendingClose,
            Communicate::Draining => SetupModel::Draining,
            Communicate::AskingPeer(socket) => SetupModel::AskingPeer(socket),
            Communicate::Ready(port) => SetupModel::Ready(port),
            Communicate::Failed(e) => SetupModel::Failed(e),
        }
    }
}

impl<S> View for SetupAction<S> {
    type V = SetupOutput<S>;

    open spec fn view(&self) -> SetupOutput<S> {
        match *self {
            SetupAction::AcceptWs(socket) => SetupOutput::AcceptWs(socket),
            SetupAction::ConnectWs(location) => SetupOutput::ConnectWs(location@),
            SetupAction::ShutDownTcp(socket) => SetupOutput::ShutDownTcp(socket),
            SetupAction::ConnectTcp(location) => SetupOutput::ConnectTcp(location@),
            SetupAction::SendClose(frame) => SetupOutput::SendClose(frame@),
            SetupAction::Drain => SetupOutput::Drain,
            SetupAction::AskPeer => SetupOutput::AskPeer,
            SetupAction::Relay(socket, port) => SetupOutput::Relay(socket, port),
            SetupAction::Fail(e) => SetupOutput::Fail(e),
        }
    }
}

// ---------------------------------------------------------------------------
// Model
// ---------------------------------------------------------------------------

/// The close message that tells that the destination could not be reached. Its code is
/// that of an error which kept the endpoint from fulfilling the request.
pub open spec fn unreachable_frame() -> FrameModel {
    FrameModel { code: 1011, reason: "Could not connect to destination."@ }
}

impl<S> SetupModel<S> {
    /// The state at the start. A socket on the websocket's side is accepted on, a location
    /// is connected to.
    pub open spec fn initial(tcp_in: SourceModel<S>, ws_in: SourceModel<S>) -> SetupModel<S> {
        match tcp_in {
            SourceModel::Tcp(_) => SetupModel::AcceptingWs(ws_in),
            SourceModel::Dest(_) => SetupModel::ConnectingWs(ws_in),
        }
    }

    /// The first action.
    pub open spec fn first(tcp_in: SourceModel<S>) -> SetupOutput<S> {
        match tcp_in {
            SourceModel::Tcp(socket) => SetupOutput::AcceptWs(socket),
            SourceModel::Dest(location) => SetupOutput::ConnectWs(location),
        }
    }

    /// The event can come where the setup stands.
    pub open spec fn accepts(self, event: SetupEvent<S>) -> bool {
        match self {
            SetupModel::AcceptingWs(_) => event is WsOpened,
            SetupModel::ConnectingWs(_) => event is WsOpened,
            SetupModel::ShuttingDownTcp => event is TcpShutDown,
            SetupModel::ConnectingTcp => event is TcpConnected,
            SetupModel::SendingClose => event is CloseSent,
            SetupModel::Draining => event is Drained,
            SetupModel::AskingPeer(_) => event is Peer,
            SetupModel::Ready(_) => false,
            SetupModel::Failed(_) => false,
        }
    }

    /// The state and the action once the websocket is open.
    pub open spec fn with_ws(ws_in: SourceModel<S>) -> (SetupModel<S>, SetupOutput<S>) {
        match ws_in {
            SourceModel::Tcp(socket) => (SetupModel::AskingPeer(socket), SetupOutput::AskPeer),
            SourceModel::Dest(location) => (
                SetupModel::ConnectingTcp,
                SetupOutput::ConnectTcp(location),
            ),
        }
    }

    /// The state and the action when the setup fails.
    pub open spec fn failure(e: SetupError) -> (SetupModel<S>, SetupOutput<S>) {
        (SetupModel::Failed(e), SetupOutput::Fail(e))
    }

    /// The state and the action after an event.
    pub open spec fn after(self, event: SetupEvent<S>) -> (SetupModel<S>, SetupOutput<S>) {
        match (self, event) {
            (SetupModel::AcceptingWs(ws_in), SetupEvent::WsOpened(true)) => Self::with_ws(ws_in),
            (SetupModel::AcceptingWs(_), _) => Self::failure(SetupError::AcceptWs),
            (SetupModel::ConnectingWs(ws_in), SetupEvent::WsOpened(true)) => Self::with_ws(ws_in),
            (SetupModel::ConnectingWs(SourceModel::Tcp(socket)), _) => (
                SetupModel::ShuttingDownTcp,
                SetupOutput::ShutDownTcp(socket),
            ),
            (SetupModel::ConnectingWs(SourceModel::Dest(_)), _) => Self::failure(
                SetupError::ConnectWs,
            ),
            (SetupModel::ShuttingDownTcp, SetupEvent::TcpShutDown(true)) => Self::failure(
                SetupError::ConnectWs,
            ),
            (SetupModel::ShuttingDownTcp, _) => Self::failure(SetupError::ShutDownTcp),
            (SetupModel::ConnectingTcp, SetupEvent::TcpConnected(Some(socket))) => (
                SetupModel::AskingPeer(socket),
                SetupOutput::AskPeer,
            ),
            (SetupModel::ConnectingTcp, _) => (
                SetupModel::SendingClose,
                SetupOutput::SendClose(unreachable_frame()),
            ),
            (SetupModel::SendingClose, _) => (SetupModel::Draining, SetupOutput::Drain),
            (SetupModel::Draining, _) => Self::failure(SetupError::ConnectTcp),
            (SetupModel::AskingPeer(socket), SetupEvent::Peer(Some(port))) => (
                SetupModel::Ready(port),
                SetupOutput::Relay(socket, port),
            ),
            (SetupModel::AskingPeer(_), _) => Self::failure(SetupError::PeerAddr),
            (ended, _) => (ended, SetupOutput::Drain),
        }
    }
}

// ---------------------------------------------------------------------------
// Operations
// ---------------------------------------------------------------------------

/// The close message that tells that the destination could not be reached.
fn close_frame() -> (frame: CloseFrame)
    ensures
        frame@ == unreachable_frame(),
{
    CloseFrame { code: 1011, reason: "Could not connect to destination.".to_owned() }
}

/// Begins to set up a connection: the websocket comes from `tcp_in` and the TCP
/// socket from `ws_in`.
pub fn communicate<S>(tcp_in: TcpOrDestination<S>, ws_in: TcpOrDestination<S>) -> (r: (
    Communicate<S>,
    SetupAction<S>,
))
    ensures
        r.0@ == SetupModel::initial(tcp_in@, ws_in@),
        r.1@ == SetupModel::first(tcp_in@),
{
    match tcp_in {
        TcpOrDestination::Tcp(socket) => (
            Communicate::AcceptingWs(ws_in),
            SetupAction::AcceptWs(socket),
        ),
        TcpOrDestination::Dest(location) => (
            Communicate::ConnectingWs(ws_in),
            SetupAction::ConnectWs(location),
        ),
    }
}

impl<S> Communicate<S> {
    /// Whether the event can come where the setup stands.
    pub fn is_accepted(&self, event: &SetupEvent<S>) -> (r: bool)
        ensures
            r == self@.accepts(*event),
    {
        match (self, event) {
            (Communicate::AcceptingWs(_), SetupEvent::WsOpened(_)) => true,
            (Communicate::ConnectingWs(_), SetupEvent::WsOpened(_)) => true,
            (Communicate::ShuttingDownTcp, SetupEvent::TcpShutDown(_)) => true,
            (Communicate::ConnectingTcp, SetupEvent::TcpConnected(_)) => true,
            (Communicate::SendingClose, SetupEvent::CloseSent(_)) => true,
            (Communicate::Draining, SetupEvent::Drained) => true,
            (Communicate::AskingPeer(_), SetupEvent::Peer(_)) => true,
            _ => false,
        }
    }

    /// The TCP socket to ask for its peer.
    pub fn tcp(&self) -> (socket: Option<&S>)
        ensures
            match self@ {
                SetupModel::AskingPeer(s) => socket == Some(&s),
                _ => socket is None,
            },
    {
        match self {
            Communicate::AskingPeer(socket) => Some(socket),
            _ => None,
        }
    }

    /// Goes on once the websocket is open.
    fn go_on_with_ws(ws_in: TcpOrDestination<S>) -> (r: (Communicate<S>, SetupAction<S>))
        ensures
            (r.0@, r.1@) == SetupModel::with_ws(ws_in@),
    {
        match ws_in {
            TcpOrDestination::Tcp(socket) => (
                Communicate::AskingPeer(socket),
                SetupAction::AskPeer,
            ),
            TcpOrDestination::Dest(location) => (
                Communicate::ConnectingTcp,
                SetupAction::ConnectTcp(location),
            ),
        }
    }

    /// Ends with an error.
    fn fail(e: SetupError) -> (r: (Communicate<S>, SetupAction<S>))
        ensures
            (r.0@, r.1@) == SetupModel::<S>::failure(e),
    {
        (Communicate::Failed(e), SetupAction::Fail(e))
    }

    /// Handles an event.
    pub fn step(self, event: SetupEvent<S>) -> (r: (Communicate<S>, SetupAction<S>))
        requires
            self@.accepts(event),
        ensures
            (r.0@, r.1@) == self@.after(event),
    {
        match (self, event) {
            (Communicate::AcceptingWs(ws_in), SetupEvent::WsOpened(true)) => Self::go_on_with_ws(
                ws_in,
            ),
            (Communicate::AcceptingWs(_), _) => Self::fail(SetupError::AcceptWs),
            (Communicate::ConnectingWs(ws_in), SetupEvent::WsOpened(true)) => Self::go_on_with_ws(
                ws_in,
            ),
            (Communicate::ConnectingWs(TcpOrDestination::Tcp(socket)), _) => (
                Communicate::ShuttingDownTcp,
                SetupAction::ShutDownTcp(socket),
            ),
            (Communicate::ConnectingWs(TcpOrDestination::Dest(_)), _) => Self::fail(
                SetupError::ConnectWs,
            ),
            (Communicate::ShuttingDownTcp, SetupEvent::TcpShutDown(true)) => Self::fail(
                SetupError::ConnectWs,
            ),
            (Communicate::ShuttingDownTcp, _) => Self::fail(SetupError::ShutDownTcp),
            (Communicate::ConnectingTcp, SetupEvent::TcpConnected(Some(socket))) => (
                Communicate::AskingPeer(socket),
                SetupAction::AskPeer,
            ),
            (Communicate::ConnectingTcp, _) => (
                Communicate::SendingClose,
                SetupAction::SendClose(close_frame()),
            ),
            (Communicate::SendingClose, _) => (Communicate::Draining, SetupAction::Drain),
            (Communicate::Draining, _) => Self::fail(SetupError::ConnectTcp),
            (Communicate::AskingPeer(socket), SetupEvent::Peer(Some(port))) => (
                Communicate::Ready(port),
                SetupAction::Relay(socket, port),
            ),
            (Communicate::AskingPeer(_), _) => Self::fail(SetupError::PeerAddr),
            (ended, _) => (ended, SetupAction::Drain),
        }
    }
}

// ---------------------------------------------------------------------------
// Laws
// ---------------------------------------------------------------------------

/// A course of events.
pub type SetupCourse<S> = Seq<SetupEvent<S>>;

impl<S> SetupModel<S> {
    /// The state after a course of events.
    pub open spec fn run(self, course: SetupCourse<S>) -> SetupModel<S>
        decreases course.len(),
    {
        if course.len() == 0 {
            self
        } else {
            self.run(course.drop_last()).after(course.last()).0
        }
    }

    /// Each event of the course can come where the setup stands then.
    pub open spec fn legal(self, course: SetupCourse<S>) -> bool
        decreases course.len(),
    {
        course.len() == 0 || (self.legal(course.drop_last()) && self.run(
            course.drop_last(),
        ).accepts(course.last()))
    }

    /// The actions that the events of the course lead to.
    pub open spec fn actions(self, course: SetupCourse<S>) -> Seq<SetupOutput<S>>
        decreases course.len(),
    {
        if course.len() == 0 {
            Seq::empty()
        } else {
            self.actions(course.drop_last()).push(
                self.run(course.drop_last()).after(course.last()).1,
            )
        }
    }
}

/// What is done from the start to where the setup stands.
pub open spec fn actions_so_far<S>(
    tcp_in: SourceModel<S>,
    ws_in: SourceModel<S>,
    course: SetupCourse<S>,
) -> Seq<SetupOutput<S>> {
    seq![SetupModel::first(tcp_in)] + SetupModel::initial(tcp_in, ws_in).actions(course)
}

/// The TCP socket of a course: the one that was given, or else the one that was connected.
pub open spec fn socket_of_course<S>(ws_in: SourceModel<S>, course: SetupCourse<S>) -> S {
    match ws_in {
        SourceModel::Tcp(socket) => socket,
        SourceModel::Dest(_) => course[1]->TcpConnected_0->0,
    }
}

/// The actions that lead to a state.
pub open spec fn trail<S>(
    tcp_in: SourceModel<S>,
    ws_in: SourceModel<S>,
    socket: S,
    state: SetupModel<S>,
) -> Seq<SetupOutput<S>> {
    let opened = seq![SetupModel::first(tcp_in)];
    let asked = match ws_in {
        SourceModel::Tcp(_) => opened.push(SetupOutput::AskPeer),
        SourceModel::Dest(location) => opened.push(SetupOutput::ConnectTcp(location)).push(
            SetupOutput::AskPeer,
        ),
    };
    let cut_off = opened.push(SetupOutput::ShutDownTcp(ws_in->Tcp_0));
    let connected = opened.push(SetupOutput::ConnectTcp(ws_in->Dest_0));
    let told = connected.push(SetupOutput::SendClose(unreachable_frame()));
    match state {
        SetupModel::AcceptingWs(_) => opened,
        SetupModel::ConnectingWs(_) => opened,
        SetupModel::ShuttingDownTcp => cut_off,
        SetupModel::ConnectingTcp => connected,
        SetupModel::SendingClose => told,
        SetupModel::Draining => told.push(SetupOutput::Drain),
        SetupModel::AskingPeer(_) => asked,
        SetupModel::Ready(port) => asked.push(SetupOutput::Relay(socket, port)),
        SetupModel::Failed(e) => match e {
            SetupError::AcceptWs => opened.push(SetupOutput::Fail(e)),
            SetupError::ConnectWs => match ws_in {
                SourceModel::Tcp(_) => cut_off.push(SetupOutput::Fail(e)),
                SourceModel::Dest(_) => opened.push(SetupOutput::Fail(e)),
            },
            SetupError::ShutDownTcp => cut_off.push(SetupOutput::Fail(e)),
            SetupError::ConnectTcp => told.push(SetupOutput::Drain).push(SetupOutput::Fail(e)),
            SetupError::PeerAddr => asked.push(SetupOutput::Fail(e)),
        },
    }
}

/// What is done in the course of a setup. Where the websocket cannot be connected, a
/// TCP socket that was given is shut down before the setup fails. Where the destination
/// cannot be reached, the websocket is told so and read to its end before the setup fails.
pub proof fn lemma_setup_trail<S>(
    tcp_in: SourceModel<S>,
    ws_in: SourceModel<S>,
    course: SetupCourse<S>,
)
    requires
        SetupModel::initial(tcp_in, ws_in).legal(course),
    ensures
        actions_so_far(tcp_in, ws_in, course) == trail(
            tcp_in,
            ws_in,
            socket_of_course(ws_in, course),
            SetupModel::initial(tcp_in, ws_in).run(course),
        ),
{
    lemma_setup_course(tcp_in, ws_in, course);
}

/// A connection is relayed where the websocket was opened and the TCP socket is there
/// with its peer, and only there. Each failure has its cause.
pub proof fn lemma_setup_outcome<S>(
    tcp_in: SourceModel<S>,
    ws_in: SourceModel<S>,
    course: SetupCourse<S>,
)
    requires
        SetupModel::initial(tcp_in, ws_in).legal(course),
    ensures
        ({
            let opened = seq![SetupEvent::<S>::WsOpened(true)];
            let refused = seq![SetupEvent::<S>::WsOpened(false)];
            let connected = match ws_in {
                SourceModel::Tcp(_) => opened,
                SourceModel::Dest(_) => opened.push(
                    SetupEvent::TcpConnected(Some(socket_of_course(ws_in, course))),
                ),
            };
            match SetupModel::initial(tcp_in, ws_in).run(course) {
                SetupModel::Ready(port) => course == connected.push(SetupEvent::Peer(Some(port))),
                SetupModel::Failed(SetupError::AcceptWs) => tcp_in is Tcp && course == refused,
                SetupModel::Failed(SetupError::ConnectWs) => tcp_in is Dest && course == (
                match ws_in {
                    SourceModel::Tcp(_) => refused.push(SetupEvent::TcpShutDown(true)),
                    SourceModel::Dest(_) => refused,
                }),
                SetupModel::Failed(SetupError::ShutDownTcp) => tcp_in is Dest && ws_in is Tcp
                    && course == refused.push(SetupEvent::TcpShutDown(false)),
                SetupModel::Failed(SetupError::ConnectTcp) => ws_in is Dest && course.len() == 4
                    && course == opened.push(SetupEvent::TcpConnected(None)).push(
                    course[2],
                ).push(SetupEvent::Drained),
                SetupModel::Failed(SetupError::PeerAddr) => course == connected.push(
                    SetupEvent::Peer(None),
                ),
                _ => true,
            }
        }),
{
    lemma_setup_course(tcp_in, ws_in, course);
}

/// What each state says of the course so far.
proof fn lemma_setup_course<S>(
    tcp_in: SourceModel<S>,
    ws_in: SourceModel<S>,
    course: SetupCourse<S>,
)
    requires
        SetupModel::initial(tcp_in, ws_in).legal(course),
    ensures
        ({
            let start = SetupModel::initial(tcp_in, ws_in);
            let state = start.run(course);
            let socket = socket_of_course(ws_in, course);
            let opened = seq![SetupEvent::<S>::WsOpened(true)];
            let refused = seq![SetupEvent::<S>::WsOpened(false)];
            let unconnected = opened.push(SetupEvent::TcpConnected(None));
            let connected = match ws_in {
                SourceModel::Tcp(_) => opened,
                SourceModel::Dest(_) => opened.push(SetupEvent::TcpConnected(Some(socket))),
            };
            &&& actions_so_far(tcp_in, ws_in, course) =~= trail(tcp_in, ws_in, socket, state)
            &&& match state {
                SetupModel::AcceptingWs(_) => tcp_in is Tcp && state == start && course.len() == 0,
                SetupModel::ConnectingWs(_) => tcp_in is Dest && state == start && course.len()
                    == 0,
                SetupModel::ShuttingDownTcp => tcp_in is Dest && ws_in is Tcp && course
                    =~= refused,
                SetupModel::ConnectingTcp => ws_in is Dest && course =~= opened,
                SetupModel::SendingClose => ws_in is Dest && course =~= unconnected,
                SetupModel::Draining => ws_in is Dest && course.len() == 3 && course
                    =~= unconnected.push(course[2]),
                SetupModel::AskingPeer(s) => course =~= connected && s == socket,
                SetupModel::Ready(port) => course =~= connected.push(SetupEvent::Peer(Some(port))),
                SetupModel::Failed(SetupError::AcceptWs) => tcp_in is Tcp && course =~= refused,
                SetupModel::Failed(SetupError::ConnectWs) => tcp_in is Dest && course =~= (
                match ws_in {
                    SourceModel::Tcp(_) => refused.push(SetupEvent::TcpShutDown(true)),
                    SourceModel::Dest(_) => refused,
                }),
                SetupModel::Failed(SetupError::ShutDownTcp) => tcp_in is Dest && ws_in is Tcp
                    && course =~= refused.push(SetupEvent::TcpShutDown(false)),
                SetupModel::Failed(SetupError::ConnectTcp) => ws_in is Dest && course.len() == 4
                    && course =~= unconnected.push(course[2]).push(SetupEvent::Drained),
                SetupModel::Failed(SetupError::PeerAddr) => course =~= connected.push(
                    SetupEvent::Peer(None),
                ),
            }
        }),
    decreases course.len(),
{
    let start = SetupModel::initial(tcp_in, ws_in);
    if course.len() > 0 {
        let before = course.drop_last();
        lemma_setup_course(tcp_in, ws_in, before);
        assert(course =~= before.push(course.last()));
        assert(actions_so_far(tcp_in, ws_in, course) =~= actions_so_far(
            tcp_in,
            ws_in,
            before,
        ).push(start.run(before).after(course.last()).1));
    } else {
        assert(actions_so_far(tcp_in, ws_in, course) =~= seq![SetupModel::first(tcp_in)]);
    }
}

/// The close message that tells that the destination could not be reached has the code for
/// an unexpected condition and says what happened.
pub proof fn lemma_unreachable_frame<S>(state: SetupModel<S>)
    requires
        state is ConnectingTcp,
    ensures
        state.after(SetupEvent::TcpConnected(None)).0 is SendingClose,
        state.after(SetupEvent::TcpConnected(None)).1 is SendClose,
        state.after(SetupEvent::TcpConnected(None)).1->SendClose_0.code == 1011,
        state.after(SetupEvent::TcpConnected(None)).1->SendClose_0.reason
            == "Could not connect to destination."@,
{
}

/// A socket on the websocket's side is accepted on, and a location there is connected to.
pub proof fn lemma_setup_start<S>(socket: S, location: Seq<char>, ws_in: SourceModel<S>)
    ensures
        SetupModel::initial(SourceModel::Tcp(socket), ws_in) == SetupModel::AcceptingWs(ws_in),
        SetupModel::first(SourceModel::Tcp(socket)) == SetupOutput::AcceptWs(socket),
        SetupModel::<S>::initial(SourceModel::Dest(location), ws_in) == SetupModel::ConnectingWs(
            ws_in,
        ),
        SetupModel::<S>::first(SourceModel::Dest(location)) == SetupOutput::<S>::ConnectWs(
            location,
        ),
{
}

/// Each action has its own outcomes, any of which can come, and after the end nothing does.
pub proof fn lemma_setup_accepts<S>(state: SetupModel<S>, event: SetupEvent<S>)
    ensures
        state.accepts(event) <==> {
            ||| (state is AcceptingWs || state is ConnectingWs) && event is WsOpened
            ||| state is ShuttingDownTcp && event is TcpShutDown
            ||| state is ConnectingTcp && event is TcpConnected
            ||| state is SendingClose && event is CloseSent
            ||| state is Draining && event is Drained
            ||| state is AskingPeer && event is Peer
        },
{
}

/// Once the websocket is open, a TCP socket that was given is asked for its peer, and a
/// location is connected to.
pub proof fn lemma_setup_opened<S>(socket: S, location: Seq<char>)
    ensures
        ({
            let given = SourceModel::Tcp(socket);
            let asked = (SetupModel::AskingPeer(socket), SetupOutput::<S>::AskPeer);
            &&& SetupModel::AcceptingWs(given).after(SetupEvent::WsOpened(true)) == asked
            &&& SetupModel::ConnectingWs(given).after(SetupEvent::WsOpened(true)) == asked
        }),
        ({
            let given = SourceModel::<S>::Dest(location);
            let connect = (SetupModel::<S>::ConnectingTcp, SetupOutput::<S>::ConnectTcp(location));
            &&& SetupModel::AcceptingWs(given).after(SetupEvent::WsOpened(true)) == connect
            &&& SetupModel::ConnectingWs(given).after(SetupEvent::WsOpened(true)) == connect
        }),
{
}

/// Where the websocket cannot be accepted, the setup fails at once. Where it cannot be
/// connected, a TCP socket that was given is first shut down.
pub proof fn lemma_setup_not_opened<S>(socket: S, location: Seq<char>, ws_in: SourceModel<S>)
    ensures
        SetupModel::AcceptingWs(ws_in).after(SetupEvent::WsOpened(false)) == (
            SetupModel::<S>::Failed(SetupError::AcceptWs),
            SetupOutput::<S>::Fail(SetupError::AcceptWs),
        ),
        SetupModel::ConnectingWs(SourceModel::Tcp(socket)).after(SetupEvent::WsOpened(false)) == (
            SetupModel::<S>::ShuttingDownTcp,
            SetupOutput::ShutDownTcp(socket),
        ),
        SetupModel::ConnectingWs(SourceModel::<S>::Dest(location)).after(
            SetupEvent::WsOpened(false),
        ) == (
            SetupModel::<S>::Failed(SetupError::ConnectWs),
            SetupOutput::<S>::Fail(SetupError::ConnectWs),
        ),
        SetupModel::<S>::ShuttingDownTcp.after(SetupEvent::TcpShutDown(true)) == (
            SetupModel::<S>::Failed(SetupError::ConnectWs),
            SetupOutput::<S>::Fail(SetupError::ConnectWs),
        ),
        SetupModel::<S>::ShuttingDownTcp.after(SetupEvent::TcpShutDown(false)) == (
            SetupModel::<S>::Failed(SetupError::ShutDownTcp),
            SetupOutput::<S>::Fail(SetupError::ShutDownTcp),
        ),
{
}

/// A TCP socket that was connected is asked for its peer, and relayed with the port of it.
/// Without a peer the setup fails. Where the destination could not be reached, the websocket
/// is read to its end after the close message, whether that was sent or not, and the setup
/// fails.
pub proof fn lemma_setup_tcp<S>(socket: S, port: u16, sent: bool)
    ensures
        SetupModel::ConnectingTcp.after(SetupEvent::TcpConnected(Some(socket))) == (
            SetupModel::AskingPeer(socket),
            SetupOutput::<S>::AskPeer,
        ),
        SetupModel::AskingPeer(socket).after(SetupEvent::Peer(Some(port))) == (
            SetupModel::<S>::Ready(port),
            SetupOutput::Relay(socket, port),
        ),
        SetupModel::AskingPeer(socket).after(SetupEvent::Peer(None)) == (
            SetupModel::<S>::Failed(SetupError::PeerAddr),
            SetupOutput::<S>::Fail(SetupError::PeerAddr),
        ),
        SetupModel::<S>::SendingClose.after(SetupEvent::CloseSent(sent)) == (
            SetupModel::<S>::Draining,
            SetupOutput::<S>::Drain,
        ),
        SetupModel::<S>::Draining.after(SetupEvent::Drained) == (
            SetupModel::<S>::Failed(SetupError::ConnectTcp),
            SetupOutput::<S>::Fail(SetupError::ConnectTcp),
        ),
{
}

/// A source, a close message and a state stand for what they hold.
pub proof fn lemma_setup_stands_for_itself<S>(
    source: TcpOrDestination<S>,
    frame: CloseFrame,
    state: Communicate<S>,
)
    ensures
        match source {
            TcpOrDestination::Tcp(socket) => source@ == SourceModel::Tcp(socket),
            TcpOrDestination::Dest(location) => source@ == SourceModel::<S>::Dest(location@),
        },
        frame@.code == frame.code,
        frame@.reason == frame.reason@,
        match state {
            Communicate::AcceptingWs(ws_in) => state@ == SetupModel::AcceptingWs(ws_in@),
            Communicate::ConnectingWs(ws_in) => state@ == SetupModel::ConnectingWs(ws_in@),
            Communicate::ShuttingDownTcp => state@ is ShuttingDownTcp,
            Communicate::ConnectingTcp => state@ is ConnectingTcp,
            Communicate::SendingClose => state@ is SendingClose,
            Communicate::Draining => state@ is Draining,
            Communicate::AskingPeer(socket) => state@ == SetupModel::AskingPeer(socket),
            Communicate::Ready(port) => state@ == SetupModel::<S>::Ready(port),
            Communicate::Failed(e) => state@ == SetupModel::<S>::Failed(e),
        },
{
}

/// An action stands for what it holds.
pub proof fn lemma_setup_action_stands_for_itself<S>(action: SetupAction<S>)
    ensures
        match action {
            SetupAction::AcceptWs(socket) => action@ == SetupOutput::AcceptWs(socket),
            SetupAction::ConnectWs(location) => action@ == SetupOutput::<S>::ConnectWs(location@),
            SetupAction::ShutDownTcp(socket) => action@ == SetupOutput::ShutDownTcp(socket),
            SetupAction::ConnectTcp(location) => action@ == SetupOutput::<S>::ConnectTcp(
                location@,
            ),
            SetupAction::SendClose(frame) => action@ == SetupOutput::<S>::SendClose(frame@),
            SetupAction::Drain => action@ is Drain,
            SetupAction::AskPeer => action@ is AskPeer,
            SetupAction::Relay(socket, port) => action@ == SetupOutput::Relay(socket, port),
            SetupAction::Fail(e) => action@ == SetupOutput::<S>::Fail(e),
        },
{
}

} // verus!
