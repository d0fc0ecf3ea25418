//! From the TCP socket to the websocket: what is done with each packet that is read.
//!
//! The task that owns the sockets performs one action at a time and reports what
//! came of it; the state here decides on the next one.
use vstd::prelude::*;
use crate::direction::Direction;
use crate::proxy_socks5::{
    client_greeting, greeting_value, handle_client_socks5_greeting_request,
    handle_server_side_socks5_greeting_response, is_answer, lemma_answers,
    lemma_greeting_is_no_request, lemma_greetings, server_greeting, ClientGreeting,
};
use crate::codec::{copy_range, wire_value};
use crate::status::{
    count_sent, counted, has_room_to_send, is_readable, label_after, readable, room_to_send, sent,
    sent_count, table, tcp_to_ws_status, StatusMap, StatusModel,
};

verus! {

/// Where the task stands.
#[derive(Debug, Clone, Copy, PartialEq, Eq, Structural)]
pub enum TcpPhase {
    /// Waiting for a packet.
    Reading,
    /// Answering a greeting to the TCP socket.
    Replying(ClientGreeting),
    /// Passing a packet on to the websocket.
    Sending,
    /// Telling the websocket that this side is done.
    Closing,
    /// Done.
    Finished,
    /// Broken off by a request to connect that names no address.
    Aborted,
}

/// The state of the task.
#[derive(Debug, Clone, Copy, PartialEq, Eq, Structural)]
pub struct TcpIncoming {
    /// The end of the tunnel at which the SOCKS5 handshake is handled, if it is.
    pub handshake: Option<Direction>,
    /// The port of the TCP peer.
    pub port: u16,
    /// No packet has come yet and a handshake is expected.
    pub need_init_state: bool,
    /// The websocket is still to be closed from this side.
    pub need_close: bool,
    /// Where the task stands.
    pub phase: TcpPhase,
}

/// What happened.
#[derive(Debug, Clone, Copy, PartialEq, Eq, Structural)]
pub enum TcpEvent {
    /// So many octets were read into the buffer. None means that the peer closed.
    Read(usize),
    /// Reading failed.
    ReadFailed,
    /// The websocket side is done.
    Shutdown,
    /// The answer was written, or could not be.
    ReplyWritten(bool),
    /// The packet was sent, or could not be.
    Sent(bool),
    /// The close message was sent, or could not be.
    CloseSent(bool),
}

/// What to do next.
#[derive(Debug, PartialEq, Eq)]
pub enum TcpAction {
    /// Read from the TCP socket, or hear that the websocket side is done.
    Read,
    /// Write all of this to the TCP socket.
    WriteTcp(Vec<u8>),
    /// Send this to the websocket as a binary message.
    SendWs(Vec<u8>),
    /// Send a close message to the websocket.
    SendClose,
    /// Tell the websocket side and end, with the state's `need_close`.
    Finish(bool),
    /// Break off out of order: a request to connect names no address.
    Abort,
}

/// What a `TcpAction` stands for.
#[verifier::ext_equal]
pub enum TcpOutput {
    Read,
    WriteTcp(Seq<u8>),
    SendWs(Seq<u8>),
    SendClose,
    Finish(bool),
    Abort,
}

impl View for TcpAction {
    type V = TcpOutput;

    open spec fn view(&self) -> TcpOutput {
        match *self {
            TcpAction::Read => TcpOutput::Read,
            TcpAction::WriteTcp(b) => TcpOutput::WriteTcp(b@),
            TcpAction::SendWs(b) => TcpOutput::SendWs(b@),
            TcpAction::SendClose => TcpOutput::SendClose,
            TcpAction::Finish(b) => TcpOutput::Finish(b),
            TcpAction::Abort => TcpOutput::Abort,
        }
    }
}

// ---------------------------------------------------------------------------
// Model
// ---------------------------------------------------------------------------

impl TcpIncoming {
    /// The state at the start.
    pub open spec fn initial(handshake: Option<Direction>, port: u16) -> TcpIncoming {
        TcpIncoming {
            handshake,
            port,
            need_init_state: handshake is Some,
            need_close: true,
            phase: TcpPhase::Reading,
        }
    }

    /// What holds of the state at all times.
    pub open spec fn wf(self) -> bool {
        &&& self.need_init_state ==> self.handshake is Some
        &&& self.phase is Replying ==> self.handshake == Some(Direction::ClientSide)
            && !self.need_init_state
        &&& self.phase !is Finished ==> self.need_close
        &&& self.phase is Sending ==> !self.need_init_state
    }

    /// The event can come where the task stands.
    pub open spec fn accepts(self, event: TcpEvent) -> bool {
        match self.phase {
            TcpPhase::Reading => event is Read || event is ReadFailed || event is Shutdown,
            TcpPhase::Replying(_) => event is ReplyWritten,
            TcpPhase::Sending => event is Sent,
            TcpPhase::Closing => event is CloseSent,
            TcpPhase::Finished => false,
            TcpPhase::Aborted => false,
        }
    }

    /// The state after an event.
    pub open spec fn next(self, event: TcpEvent, buf: Seq<u8>) -> TcpIncoming {
        match event {
            TcpEvent::Read(n) => if n == 0 {
                TcpIncoming { phase: TcpPhase::Closing, ..self }
            } else {
                TcpIncoming {
                    need_init_state: false,
                    phase: self.phase_after_read(buf, n as nat),
                    ..self
                }
            },
            TcpEvent::ReadFailed => TcpIncoming { phase: TcpPhase::Closing, ..self },
            TcpEvent::Shutdown => TcpIncoming {
                need_close: false,
                phase: TcpPhase::Finished,
                ..self
            },
            TcpEvent::ReplyWritten(done) => TcpIncoming {
                phase: if done {
                    TcpPhase::Reading
                } else {
                    TcpPhase::Sending
                },
                ..self
            },
            TcpEvent::Sent(done) => TcpIncoming {
                phase: if done {
                    TcpPhase::Reading
                } else {
                    TcpPhase::Closing
                },
                ..self
            },
            TcpEvent::CloseSent(_) => TcpIncoming { phase: TcpPhase::Finished, ..self },
        }
    }

    /// Where the task stands after a packet: the first one may belong to the handshake.
    pub open spec fn phase_after_packet(self, packet: Seq<u8>) -> TcpPhase {
        if self.need_init_state && self.handshake == Some(Direction::ClientSide) && greeting_value(
            packet,
        ) is Some {
            TcpPhase::Replying(greeting_value(packet)->0)
        } else if self.need_init_state && self.handshake == Some(Direction::ServerSide) && packet
            == server_greeting() {
            TcpPhase::Reading
        } else {
            TcpPhase::Sending
        }
    }

    /// Where the task stands after the first `n` octets of `buf` were read: a packet that
    /// would be passed on breaks the task off where it cannot be made out.
    pub open spec fn phase_after_read(self, buf: Seq<u8>, n: nat) -> TcpPhase {
        let phase = self.phase_after_packet(buf.take(n as int));
        if phase is Sending && !readable(buf, n) {
            TcpPhase::Aborted
        } else {
            phase
        }
    }

    /// The packet that an event makes the task pass on.
    pub open spec fn forwards(self, event: TcpEvent, buf: Seq<u8>) -> Option<Seq<u8>> {
        match event {
            TcpEvent::Read(n) => if n > 0 && self.next(event, buf).phase is Sending {
                Some(buf.take(n as int))
            } else {
                None
            },
            TcpEvent::ReplyWritten(false) => Some(self.phase->Replying_0.bytes()),
            _ => None,
        }
    }

    /// What the task does after an event.
    pub open spec fn output(self, event: TcpEvent, buf: Seq<u8>) -> TcpOutput {
        match self.next(event, buf).phase {
            TcpPhase::Reading => TcpOutput::Read,
            TcpPhase::Replying(_) => TcpOutput::WriteTcp(server_greeting()),
            TcpPhase::Sending => TcpOutput::SendWs(self.forwards(event, buf)->0),
            TcpPhase::Closing => TcpOutput::SendClose,
            TcpPhase::Finished => TcpOutput::Finish(self.next(event, buf).need_close),
            TcpPhase::Aborted => TcpOutput::Abort,
        }
    }

    /// The event can be handled: a packet lies in the buffer, a first one at the client
    /// side is not too long, and one that is not part of the handshake can be counted.
    pub open spec fn ready(
        self,
        event: TcpEvent,
        buf: Seq<u8>,
        t: Map<u16, StatusModel>,
    ) -> bool {
        match event {
            TcpEvent::Read(n) => {
                &&& n <= buf.len()
                &&& n > 0 && self.need_init_state && self.handshake == Some(Direction::ClientSide)
                    ==> n <= 1024
                &&& n > 0 && self.phase_after_packet(buf.take(n as int)) is Sending
                    ==> room_to_send(t, self.port, n as nat)
            },
            TcpEvent::ReplyWritten(false) => room_to_send(
                t,
                self.port,
                self.phase->Replying_0.bytes().len(),
            ),
            _ => true,
        }
    }

    /// The table of connections after an event. A packet that breaks the task off is
    /// still counted.
    pub open spec fn table_after(
        self,
        event: TcpEvent,
        buf: Seq<u8>,
        t: Map<u16, StatusModel>,
    ) -> Map<u16, StatusModel> {
        match (event, self.forwards(event, buf)) {
            (TcpEvent::Read(n), Some(_)) => sent(t, self.port, buf, n as nat),
            (_, Some(packet)) => sent(t, self.port, packet, packet.len()),
            (TcpEvent::Read(n), None) => if self.next(event, buf).phase is Aborted {
                sent_count(t, self.port, n as nat)
            } else {
                t
            },
            (_, None) => t,
        }
    }

    /// The label of the connection after an event.
    pub open spec fn label_after(self, event: TcpEvent, buf: Seq<u8>, label: Seq<char>) -> Seq<
        char,
    > {
        match (event, self.forwards(event, buf)) {
            (TcpEvent::Read(n), Some(_)) => label_after(label, buf, n as nat),
            _ => label,
        }
    }
}

// ---------------------------------------------------------------------------
// Operations
// ---------------------------------------------------------------------------

impl TcpIncoming {
    /// The state at the start. The first action is to read.
    pub fn new(handshake: Option<Direction>, port: u16) -> (task: TcpIncoming)
        ensures
            task == TcpIncoming::initial(handshake, port),
            task.wf(),
    {
        let need_init_state: bool = match handshake {
            Some(_) => true,
            None => false,
        };
        TcpIncoming {
            handshake,
            port,
            need_init_state,
            need_close: true,
            phase: TcpPhase::Reading,
        }
    }

    /// Whether the event can come where the task stands.
    pub fn is_accepted(&self, event: TcpEvent) -> (r: bool)
        ensures
            r == self.accepts(event),
    {
        match (self.phase, event) {
            (TcpPhase::Reading, TcpEvent::Read(_)) => true,
            (TcpPhase::Reading, TcpEvent::ReadFailed) => true,
            (TcpPhase::Reading, TcpEvent::Shutdown) => true,
            (TcpPhase::Replying(_), TcpEvent::ReplyWritten(_)) => true,
            (TcpPhase::Sending, TcpEvent::Sent(_)) => true,
            (TcpPhase::Closing, TcpEvent::CloseSent(_)) => true,
            _ => false,
        }
    }

    /// Where the task stands after the packet in the first `n` octets of `buf`.
    fn after_packet(&self, buf: &Vec<u8>, n: usize) -> (phase: TcpPhase)
        requires
            self.wf(),
            0 < n <= buf@.len(),
        ensures
            phase == self.phase_after_packet(buf@.take(n as int)),
    {
        if !self.need_init_state {
            return TcpPhase::Sending;
        }
        let ghost packet = buf@.take(n as int);
        match self.handshake {
            Some(Direction::ClientSide) => match client_greeting(buf, n) {
                Some(greeting) => TcpPhase::Replying(greeting),
                None => TcpPhase::Sending,
            },
            Some(Direction::ServerSide) => {
                proof {
                    if packet == server_greeting() {
                        assert(packet.len() == 2 && packet[0] == 5 && packet[1] == 0);
                        assert(packet[0] == buf@[0] && packet[1] == buf@[1]);
                    }
                    if is_answer(buf@, n as nat, 2) {
                        assert(packet =~= server_greeting());
                    }
                }
                match handle_server_side_socks5_greeting_response(buf, n) {
                    Ok(_) => TcpPhase::Reading,
                    Err(_) => TcpPhase::Sending,
                }
            },
            None => TcpPhase::Sending,
        }
    }

    /// Whether the event can be handled.
    pub fn is_ready(&self, event: TcpEvent, buf: &Vec<u8>, map: &StatusMap) -> (r: bool)
        requires
            self.wf(),
            self.accepts(event),
        ensures
            r == self.ready(event, buf@, table(map@)),
    {
        match event {
            TcpEvent::Read(n) => {
                if n > buf.len() {
                    return false;
                }
                if n == 0 {
                    return true;
                }
                let phase = self.after_packet(buf, n);
                if self.need_init_state && n > 1024 {
                    match self.handshake {
                        Some(Direction::ClientSide) => {
                            return false;
                        },
                        _ => {},
                    }
                }
                match phase {
                    TcpPhase::Sending => has_room_to_send(map, self.port, n),
                    _ => true,
                }
            },
            TcpEvent::ReplyWritten(done) => match self.phase {
                TcpPhase::Replying(greeting) => done || has_room_to_send(
                    map,
                    self.port,
                    greeting.to_bytes().len(),
                ),
                _ => true,
            },
            _ => true,
        }
    }

    /// Handles an event. Where it passes a packet on, the packet is recorded. A request to
    /// connect that names no address is counted and breaks the task off.
    pub fn step(
        &mut self,
        event: TcpEvent,
        buf: &Vec<u8>,
        map: &mut StatusMap,
        label: &mut String,
    ) -> (action: TcpAction)
        requires
            old(self).wf(),
            old(self).accepts(event),
            old(self).ready(event, buf@, table(old(map)@)),
        ensures
            *final(self) == old(self).next(event, buf@),
            final(self).wf(),
            action@ == old(self).output(event, buf@),
            action is Abort ==> event is Read && event->Read_0 > 3 && buf@[0] == 5 && buf@[1] == 1,
            event is Read && event->Read_0 > 0 && !old(self).need_init_state && (event->Read_0 <= 3
                || buf@[0] != 5 || buf@[1] != 1) ==> action is SendWs && action->SendWs_0@
                == buf@.take(event->Read_0 as int),
            table(final(map)@) == old(self).table_after(event, buf@, table(old(map)@)),
            final(label)@ == old(self).label_after(event, buf@, old(label)@),
    {
        match event {
            TcpEvent::Read(n) => {
                if n == 0 {
                    self.phase = TcpPhase::Closing;
                    return TcpAction::SendClose;
                }
                let phase = self.after_packet(buf, n);
                self.need_init_state = false;
                self.phase = phase;
                match phase {
                    TcpPhase::Replying(_) => {
                        match handle_client_socks5_greeting_request(buf, n) {
                            Ok(reply) => TcpAction::WriteTcp(reply),
                            Err(_) => TcpAction::Read,
                        }
                    },
                    TcpPhase::Sending => {
                        if !is_readable(buf, n) {
                            count_sent(map, self.port, n);
                            self.phase = TcpPhase::Aborted;
                            return TcpAction::Abort;
                        }
                        tcp_to_ws_status(map, label, self.port, buf, n);
                        let packet = copy_range(buf.as_slice(), 0, n);
                        assert(packet@ =~= buf@.take(n as int));
                        TcpAction::SendWs(packet)
                    },
                    _ => TcpAction::Read,
                }
            },
            TcpEvent::ReadFailed => {
                self.phase = TcpPhase::Closing;
                TcpAction::SendClose
            },
            TcpEvent::Shutdown => {
                self.need_close = false;
                self.phase = TcpPhase::Finished;
                TcpAction::Finish(false)
            },
            TcpEvent::ReplyWritten(done) => {
                if done {
                    self.phase = TcpPhase::Reading;
                    return TcpAction::Read;
                }
                match self.phase {
                    TcpPhase::Replying(greeting) => {
                        let packet = greeting.to_bytes();
                        proof {
                            lemma_greeting_is_no_request(packet@);
                        }
                        tcp_to_ws_status(map, label, self.port, &packet, packet.len());
                        self.phase = TcpPhase::Sending;
                        TcpAction::SendWs(packet)
                    },
                    _ => TcpAction::Read,
                }
            },
            TcpEvent::Sent(done) => {
                if done {
                    self.phase = TcpPhase::Reading;
                    TcpAction::Read
                } else {
                    self.phase = TcpPhase::Closing;
                    TcpAction::SendClose
                }
            },
            TcpEvent::CloseSent(_) => {
                self.phase = TcpPhase::Finished;
                TcpAction::Finish(self.need_close)
            },
        }
    }
}

// ---------------------------------------------------------------------------
// Laws
// ---------------------------------------------------------------------------

/// A course of events, each with the buffer as it was then.
pub type TcpCourse = Seq<(TcpEvent, Seq<u8>)>;

impl TcpIncoming {
    /// The state after a course of events.
    pub open spec fn run(self, course: TcpCourse) -> TcpIncoming
        decreases course.len(),
    {
        if course.len() == 0 {
            self
        } else {
            let (event, buf) = course.last();
            self.run(course.drop_last()).next(event, buf)
        }
    }

    /// Each event of the course can come where the task stands then, and each packet
    /// lies in the buffer.
    pub open spec fn legal(self, course: TcpCourse) -> bool
        decreases course.len(),
    {
        course.len() == 0 || {
            let (event, buf) = course.last();
            &&& self.legal(course.drop_last())
            &&& self.run(course.drop_last()).accepts(event)
            &&& event matches TcpEvent::Read(n) ==> n <= buf.len()
        }
    }

    /// The packets that the task passes on to the websocket.
    pub open spec fn forwarded(self, course: TcpCourse) -> Seq<Seq<u8>>
        decreases course.len(),
    {
        if course.len() == 0 {
            Seq::empty()
        } else {
            let (event, buf) = course.last();
            let before = self.forwarded(course.drop_last());
            match self.run(course.drop_last()).output(event, buf) {
                TcpOutput::SendWs(packet) => before.push(packet),
                _ => before,
            }
        }
    }

    /// The table of connections after the course.
    pub open spec fn table_run(self, course: TcpCourse, t: Map<u16, StatusModel>) -> Map<
        u16,
        StatusModel,
    >
        decreases course.len(),
    {
        if course.len() == 0 {
            t
        } else {
            let (event, buf) = course.last();
            self.run(course.drop_last()).table_after(
                event,
                buf,
                self.table_run(course.drop_last(), t),
            )
        }
    }

    /// Each event of the course can be handled when it comes.
    pub open spec fn always_ready(self, course: TcpCourse, t: Map<u16, StatusModel>) -> bool
        decreases course.len(),
    {
        course.len() == 0 || {
            let (event, buf) = course.last();
            &&& self.always_ready(course.drop_last(), t)
            &&& self.run(course.drop_last()).ready(
                event,
                buf,
                self.table_run(course.drop_last(), t),
            )
        }
    }
}

/// The packets that were read in a course of events.
pub open spec fn packets(course: TcpCourse) -> Seq<Seq<u8>>
    decreases course.len(),
{
    if course.len() == 0 {
        Seq::empty()
    } else {
        let (event, buf) = course.last();
        let before = packets(course.drop_last());
        match event {
            TcpEvent::Read(n) => if n > 0 {
                before.push(buf.take(n as int))
            } else {
                before
            },
            _ => before,
        }
    }
}

/// The packets that were read in a course of events, but for one that broke the task off.
pub open spec fn taken(start: TcpIncoming, course: TcpCourse) -> Seq<Seq<u8>> {
    if start.run(course).phase is Aborted {
        packets(course).drop_last()
    } else {
        packets(course)
    }
}

/// The number of octets in a list of packets, each length as the counter takes it.
pub open spec fn total_len(packets: Seq<Seq<u8>>) -> nat
    decreases packets.len(),
{
    if packets.len() == 0 {
        0
    } else {
        total_len(packets.drop_last()) + counted(packets.last().len())
    }
}

/// A packet that may be kept back as part of the handshake.
pub open spec fn of_handshake(handshake: Option<Direction>, packet: Seq<u8>) -> bool {
    match handshake {
        Some(Direction::ClientSide) => greeting_value(packet) is Some,
        Some(Direction::ServerSide) => packet == server_greeting(),
        None => false,
    }
}

/// The answer to a greeting could not be written in a course of events.
pub open spec fn reply_failed(course: TcpCourse) -> bool
    decreases course.len(),
{
    course.len() > 0 && (course.last().0 == TcpEvent::ReplyWritten(false) || reply_failed(
        course.drop_last(),
    ))
}

/// The state stays well formed, and keeps its end of the tunnel and its port.
pub proof fn lemma_tcp_run_wf(start: TcpIncoming, course: TcpCourse)
    requires
        start.wf(),
        start.legal(course),
    ensures
        start.run(course).wf(),
        start.run(course).handshake == start.handshake,
        start.run(course).port == start.port,
    decreases course.len(),
{
    if course.len() > 0 {
        lemma_tcp_run_wf(start, course.drop_last());
    }
}

/// Every packet that is read is passed on unchanged and in order, except that the first
/// one is kept back where it belongs to the handshake and, at the client side, its
/// answer could be written, and that one which breaks the task off is not passed on.
pub proof fn lemma_tcp_forwards_what_it_reads(
    handshake: Option<Direction>,
    port: u16,
    course: TcpCourse,
)
    requires
        TcpIncoming::initial(handshake, port).legal(course),
    ensures
        ({
            let start = TcpIncoming::initial(handshake, port);
            let read = taken(start, course);
            start.forwarded(course) == (if read.len() > 0 && of_handshake(handshake, read[0])
                && !reply_failed(course) {
                read.skip(1)
            } else {
                read
            })
        }),
{
    lemma_tcp_forwarding(handshake, port, course);
}

proof fn lemma_tcp_forwarding(handshake: Option<Direction>, port: u16, course: TcpCourse)
    requires
        TcpIncoming::initial(handshake, port).legal(course),
    ensures
        ({
            let start = TcpIncoming::initial(handshake, port);
            let state = start.run(course);
            let read = taken(start, course);
            let forwarded = start.forwarded(course);
            &&& handshake is Some && packets(course).len() == 0 ==> state.need_init_state
            &&& state.need_init_state ==> packets(course).len() == 0
            &&& state.phase is Aborted ==> packets(course).len() > 0
            &&& state.phase matches TcpPhase::Replying(g) ==> read =~= seq![g.bytes()]
                && forwarded.len() == 0 && !reply_failed(course)
            &&& packets(course).len() == 0 ==> !reply_failed(course)
            &&& forwarded =~= (if read.len() > 0 && of_handshake(handshake, read[0])
                && !reply_failed(course) {
                read.skip(1)
            } else {
                read
            })
        }),
    decreases course.len(),
{
    let start = TcpIncoming::initial(handshake, port);
    if course.len() > 0 {
        let before = course.drop_last();
        let (event, buf) = course.last();
        lemma_tcp_forwarding(handshake, port, before);
        lemma_tcp_run_wf(start, before);
        let state = start.run(before);
        let read = packets(before);
        let forwarded = start.forwarded(before);
        assert(taken(start, before) == read);
        match event {
            TcpEvent::Read(n) => {
                if n > 0 {
                    let packet = buf.take(n as int);
                    assert(packets(course) == read.push(packet));
                    if start.run(course).phase is Aborted {
                        assert(read.push(packet).drop_last() =~= read);
                        assert(start.forwarded(course) == forwarded);
                    } else if state.need_init_state {
                        assert(read.push(packet) =~= seq![packet]);
                        if state.next(event, buf).phase is Sending {
                            assert(start.forwarded(course) =~= seq![packet]);
                        } else {
                            assert(read.push(packet).skip(1) =~= Seq::<Seq<u8>>::empty());
                            assert(start.forwarded(course) =~= Seq::<Seq<u8>>::empty());
                        }
                    } else {
                        assert(start.forwarded(course) == forwarded.push(packet));
                        if read.len() > 0 {
                            assert(read.push(packet)[0] == read[0]);
                            assert(read.skip(1).push(packet) =~= read.push(packet).skip(1));
                        }
                    }
                }
            },
            TcpEvent::ReplyWritten(done) => {
                if !done {
                    let g = state.phase->Replying_0;
                    assert(start.forwarded(course) =~= seq![g.bytes()]);
                }
            },
            _ => {},
        }
    }
}

/// Where no handshake is handled, nothing is kept back.
pub proof fn lemma_tcp_plain_relay(port: u16, course: TcpCourse)
    requires
        TcpIncoming::initial(None, port).legal(course),
    ensures
        TcpIncoming::initial(None, port).forwarded(course) == taken(
            TcpIncoming::initial(None, port),
            course,
        ),
{
    lemma_tcp_forwards_what_it_reads(None, port, course);
}

/// The number of octets in the packet that broke the task off, if one did, as the counter
/// takes it.
pub open spec fn aborted_len(start: TcpIncoming, course: TcpCourse) -> nat {
    if start.run(course).phase is Aborted {
        counted(packets(course).last().len())
    } else {
        0
    }
}

/// The connection's count of sent octets grows by the length of what is passed on and of
/// the packet that breaks the task off.
pub proof fn lemma_tcp_counts_what_it_forwards(
    handshake: Option<Direction>,
    port: u16,
    course: TcpCourse,
    t: Map<u16, StatusModel>,
)
    requires
        TcpIncoming::initial(handshake, port).legal(course),
        TcpIncoming::initial(handshake, port).always_ready(course, t),
        t.contains_key(port),
    ensures
        ({
            let start = TcpIncoming::initial(handshake, port);
            let after = start.table_run(course, t);
            &&& after.contains_key(port)
            &&& after[port].bytes_sent == t[port].bytes_sent + total_len(start.forwarded(course))
                + aborted_len(start, course)
            &&& after[port].bytes_got == t[port].bytes_got
            &&& after.remove(port) == t.remove(port)
        }),
    decreases course.len(),
{
    let start = TcpIncoming::initial(handshake, port);
    if course.len() > 0 {
        let before = course.drop_last();
        let (event, buf) = course.last();
        lemma_tcp_counts_what_it_forwards(handshake, port, before, t);
        lemma_tcp_run_wf(start, before);
        let state = start.run(before);
        let t1 = start.table_run(before, t);
        let t2 = state.table_after(event, buf, t1);
        assert(t2.remove(port) =~= t1.remove(port));
        match state.forwards(event, buf) {
            Some(packet) => {
                let all = start.forwarded(course);
                assert(all.drop_last() =~= start.forwarded(before));
                assert(all.last() == packet);
            },
            None => {},
        }
    }
}

/// The task ends without asking for a close exactly where the websocket side ended
/// first; otherwise the last thing that it did before was to send a close message.
pub proof fn lemma_tcp_finish(handshake: Option<Direction>, port: u16, course: TcpCourse)
    requires
        TcpIncoming::initial(handshake, port).legal(course),
        TcpIncoming::initial(handshake, port).run(course).phase is Finished,
    ensures
        ({
            let start = TcpIncoming::initial(handshake, port);
            &&& course.len() > 0
            &&& !start.run(course).need_close <==> course.last().0 is Shutdown
            &&& start.run(course).need_close ==> start.run(course.drop_last()).phase is Closing
        }),
{
    let start = TcpIncoming::initial(handshake, port);
    lemma_tcp_run_wf(start, course.drop_last());
}

impl TcpIncoming {
    /// All that the task sends to the websocket, in order.
    pub open spec fn to_websocket(self, course: TcpCourse) -> Seq<TcpOutput>
        decreases course.len(),
    {
        if course.len() == 0 {
            Seq::empty()
        } else {
            let (event, buf) = course.last();
            let before = self.to_websocket(course.drop_last());
            let output = self.run(course.drop_last()).output(event, buf);
            if output is SendWs || output is SendClose {
                before.push(output)
            } else {
                before
            }
        }
    }
}

/// The packets of a list as binary messages.
pub open spec fn as_messages(packets: Seq<Seq<u8>>) -> Seq<TcpOutput> {
    packets.map_values(|packet: Seq<u8>| TcpOutput::SendWs(packet))
}

/// The websocket gets the packets that are passed on, and after them one close message
/// where the task ends by itself. It gets none where the websocket side ended first, where
/// the task is broken off, or as long as the task goes on.
pub proof fn lemma_tcp_closes_once(handshake: Option<Direction>, port: u16, course: TcpCourse)
    requires
        TcpIncoming::initial(handshake, port).legal(course),
    ensures
        ({
            let start = TcpIncoming::initial(handshake, port);
            let state = start.run(course);
            let messages = as_messages(start.forwarded(course));
            &&& start.to_websocket(course) == (if state.phase is Closing || (state.phase is Finished
                && state.need_close) {
                messages.push(TcpOutput::SendClose)
            } else {
                messages
            })
            &&& state.phase is Finished && course.last().0 is Shutdown ==> start.to_websocket(
                course,
            ) == messages
            &&& state.phase is Finished && !(course.last().0 is Shutdown) ==> start.to_websocket(
                course,
            ) == messages.push(TcpOutput::SendClose)
        }),
    decreases course.len(),
{
    let start = TcpIncoming::initial(handshake, port);
    if course.len() > 0 {
        let before = course.drop_last();
        let (event, buf) = course.last();
        lemma_tcp_closes_once(handshake, port, before);
        lemma_tcp_run_wf(start, before);
        let state = start.run(before);
        match state.output(event, buf) {
            TcpOutput::SendWs(packet) => {
                assert(start.forwarded(course) == start.forwarded(before).push(packet));
                assert(as_messages(start.forwarded(course)) =~= as_messages(
                    start.forwarded(before),
                ).push(TcpOutput::SendWs(packet)));
            },
            _ => {
                assert(start.forwarded(course) == start.forwarded(before));
            },
        }
    } else {
        assert(as_messages(start.forwarded(course)) =~= Seq::empty());
    }
}

/// The task starts by reading. It expects a handshake where one is handled, and has the
/// websocket still to close.
pub proof fn lemma_tcp_start(handshake: Option<Direction>, port: u16)
    ensures
        ({
            let task = TcpIncoming::initial(handshake, port);
            &&& task.handshake == handshake
            &&& task.port == port
            &&& task.need_init_state <==> handshake is Some
            &&& task.need_close
            &&& task.phase is Reading
        }),
{
}

/// Each action has its own outcomes, any of which can come, and after the end nothing does.
pub proof fn lemma_tcp_accepts(task: TcpIncoming, event: TcpEvent)
    ensures
        task.accepts(event) <==> {
            ||| task.phase is Reading && (event is Read || event is ReadFailed || event is Shutdown)
            ||| task.phase is Replying && event is ReplyWritten
            ||| task.phase is Sending && event is Sent
            ||| task.phase is Closing && event is CloseSent
        },
{
}

/// Every packet that is not part of the handshake is sent to the websocket as it is, of
/// whatever length, unless it is a request to connect behind whose third octet no address
/// can be read. It is counted, and a request leaves its address.
pub proof fn lemma_tcp_passes_on(
    task: TcpIncoming,
    n: usize,
    buf: Seq<u8>,
    t: Map<u16, StatusModel>,
    label: Seq<char>,
)
    requires
        task.phase is Reading,
        0 < n <= buf.len(),
        n <= 3 || buf[0] != 5 || buf[1] != 1 || wire_value(buf.skip(3)) is Ok,
        task.need_init_state && task.handshake == Some(Direction::ClientSide) ==> {
            &&& !(n == 3 && buf[0] == 5 && buf[1] == 1 && buf[2] == 0)
            &&& !(n == 4 && buf[0] == 5 && buf[1] == 2 && buf[2] == 0 && buf[3] == 1)
        },
        task.need_init_state && task.handshake == Some(Direction::ServerSide) ==> !(n == 2 && buf[0]
            == 5 && buf[1] == 0),
    ensures
        task.output(TcpEvent::Read(n), buf) == TcpOutput::SendWs(buf.take(n as int)),
        task.next(TcpEvent::Read(n), buf) == (TcpIncoming {
            need_init_state: false,
            phase: TcpPhase::Sending,
            ..task
        }),
        task.table_after(TcpEvent::Read(n), buf, t) == sent(t, task.port, buf, n as nat),
        task.label_after(TcpEvent::Read(n), buf, label) == label_after(label, buf, n as nat),
{
    let packet = buf.take(n as int);
    lemma_greetings(packet, ClientGreeting::NoAuth);
    lemma_answers(packet);
}

/// A request to connect behind whose third octet no address can be read breaks the task
/// off. It is counted and not sent.
pub proof fn lemma_tcp_breaks_off(
    task: TcpIncoming,
    n: usize,
    buf: Seq<u8>,
    t: Map<u16, StatusModel>,
    label: Seq<char>,
)
    requires
        task.phase is Reading,
        3 < n <= buf.len(),
        buf[0] == 5,
        buf[1] == 1,
        wire_value(buf.skip(3)) is Err,
    ensures
        task.output(TcpEvent::Read(n), buf) is Abort,
        task.next(TcpEvent::Read(n), buf) == (TcpIncoming {
            need_init_state: false,
            phase: TcpPhase::Aborted,
            ..task
        }),
        task.table_after(TcpEvent::Read(n), buf, t) == sent_count(t, task.port, n as nat),
        task.label_after(TcpEvent::Read(n), buf, label) == label,
{
    let packet = buf.take(n as int);
    assert(packet[1] == buf[1]);
    lemma_greetings(packet, ClientGreeting::NoAuth);
    lemma_answers(packet);
}

/// Nothing else breaks the task off.
pub proof fn lemma_tcp_breaks_off_only(task: TcpIncoming, event: TcpEvent, buf: Seq<u8>)
    requires
        task.phase !is Aborted,
        task.next(event, buf).phase is Aborted,
        event matches TcpEvent::Read(n) ==> n <= buf.len(),
    ensures
        event is Read,
        event->Read_0 > 3,
        buf[0] == 5,
        buf[1] == 1,
        wire_value(buf.skip(3)) is Err,
{
}

/// The first packet from a client that is a greeting is answered by 5 and 0 and kept back,
/// neither counted nor sent.
pub proof fn lemma_tcp_answers_greeting(
    task: TcpIncoming,
    n: usize,
    buf: Seq<u8>,
    t: Map<u16, StatusModel>,
    label: Seq<char>,
)
    requires
        task.phase is Reading,
        task.need_init_state,
        task.handshake == Some(Direction::ClientSide),
        n <= buf.len(),
        (n == 3 && buf[0] == 5 && buf[1] == 1 && buf[2] == 0) || (n == 4 && buf[0] == 5 && buf[1]
            == 2 && buf[2] == 0 && buf[3] == 1),
    ensures
        ({
            let output = task.output(TcpEvent::Read(n), buf);
            let after = task.next(TcpEvent::Read(n), buf);
            &&& output is WriteTcp
            &&& output->WriteTcp_0.len() == 2
            &&& output->WriteTcp_0[0] == 5
            &&& output->WriteTcp_0[1] == 0
            &&& after.phase is Replying
            &&& after.phase->Replying_0.bytes() == buf.take(n as int)
            &&& after == (TcpIncoming { need_init_state: false, phase: after.phase, ..task })
        }),
        task.table_after(TcpEvent::Read(n), buf, t) == t,
        task.label_after(TcpEvent::Read(n), buf, label) == label,
{
    let packet = buf.take(n as int);
    lemma_greetings(packet, ClientGreeting::NoAuth);
    lemma_greetings(packet, ClientGreeting::NoAuthOrGssapi);
    lemma_answers(server_greeting());
}

/// The first packet from a SOCKS5 server that is 5 and 0 is kept back, neither counted nor
/// sent.
pub proof fn lemma_tcp_keeps_answer(
    task: TcpIncoming,
    buf: Seq<u8>,
    t: Map<u16, StatusModel>,
    label: Seq<char>,
)
    requires
        task.phase is Reading,
        task.need_init_state,
        task.handshake == Some(Direction::ServerSide),
        2 <= buf.len(),
        buf[0] == 5,
        buf[1] == 0,
    ensures
        task.output(TcpEvent::Read(2), buf) is Read,
        task.next(TcpEvent::Read(2), buf) == (TcpIncoming { need_init_state: false, ..task }),
        task.table_after(TcpEvent::Read(2), buf, t) == t,
        task.label_after(TcpEvent::Read(2), buf, label) == label,
{
    lemma_answers(buf.take(2));
}

/// Where the answer to a greeting was written, the task reads on. Where it was not, the
/// greeting itself is counted and sent to the websocket.
pub proof fn lemma_tcp_after_answer(
    task: TcpIncoming,
    buf: Seq<u8>,
    t: Map<u16, StatusModel>,
    label: Seq<char>,
)
    requires
        task.phase is Replying,
    ensures
        task.output(TcpEvent::ReplyWritten(true), buf) is Read,
        task.next(TcpEvent::ReplyWritten(true), buf) == (TcpIncoming {
            phase: TcpPhase::Reading,
            ..task
        }),
        task.table_after(TcpEvent::ReplyWritten(true), buf, t) == t,
        task.label_after(TcpEvent::ReplyWritten(true), buf, label) == label,
        ({
            let greeting = task.phase->Replying_0.bytes();
            &&& task.output(TcpEvent::ReplyWritten(false), buf) == TcpOutput::SendWs(greeting)
            &&& task.table_after(TcpEvent::ReplyWritten(false), buf, t) == sent(
                t,
                task.port,
                greeting,
                greeting.len(),
            )
        }),
        task.next(TcpEvent::ReplyWritten(false), buf) == (TcpIncoming {
            phase: TcpPhase::Sending,
            ..task
        }),
        task.label_after(TcpEvent::ReplyWritten(false), buf, label) == label,
{
}

/// After a packet was sent, the task reads on. It sends a close message where a packet
/// could not be sent, the peer closed or reading failed, and then ends. Where the websocket
/// side ended first, it ends at once and asks for no close. None of this changes the table.
pub proof fn lemma_tcp_other_events(
    task: TcpIncoming,
    event: TcpEvent,
    buf: Seq<u8>,
    t: Map<u16, StatusModel>,
    label: Seq<char>,
)
    requires
        !(event matches TcpEvent::Read(n) && n > 0),
        event !is ReplyWritten,
    ensures
        ({
            let output = task.output(event, buf);
            let after = task.next(event, buf);
            &&& event == TcpEvent::Sent(true) ==> output is Read && after == (TcpIncoming {
                phase: TcpPhase::Reading,
                ..task
            })
            &&& event == TcpEvent::Sent(false) || event is Read || event is ReadFailed ==> output
                is SendClose && after == (TcpIncoming { phase: TcpPhase::Closing, ..task })
            &&& event is CloseSent ==> output == TcpOutput::Finish(task.need_close) && after == (
            TcpIncoming { phase: TcpPhase::Finished, ..task })
            &&& event is Shutdown ==> output == TcpOutput::Finish(false) && after == (TcpIncoming {
                need_close: false,
                phase: TcpPhase::Finished,
                ..task
            })
            &&& task.table_after(event, buf, t) == t
            &&& task.label_after(event, buf, label) == label
        }),
{
}

/// The task can handle whatever comes, but for octets beyond the buffer, a first packet from
/// a client of more than 1024 octets, and octets to be sent that the counter has no room
/// for.
pub proof fn lemma_tcp_ready(
    task: TcpIncoming,
    event: TcpEvent,
    buf: Seq<u8>,
    t: Map<u16, StatusModel>,
)
    requires
        event matches TcpEvent::ReplyWritten(_) ==> task.phase is Replying,
    ensures
        event !is Read && event != TcpEvent::ReplyWritten(false) ==> task.ready(event, buf, t),
        event == TcpEvent::ReplyWritten(false) ==> (task.ready(event, buf, t) <==> room_to_send(
            t,
            task.port,
            task.phase->Replying_0.bytes().len(),
        )),
        event matches TcpEvent::Read(n) ==> {
            let first_of_client = task.need_init_state && task.handshake == Some(
                Direction::ClientSide,
            );
            let greeting = first_of_client && ((n == 3 && buf[0] == 5 && buf[1] == 1 && buf[2] == 0)
                || (n == 4 && buf[0] == 5 && buf[1] == 2 && buf[2] == 0 && buf[3] == 1));
            let answer = task.need_init_state && task.handshake == Some(Direction::ServerSide) && n
                == 2 && buf[0] == 5 && buf[1] == 0;
            task.ready(event, buf, t) <==> {
                &&& n <= buf.len()
                &&& first_of_client ==> n <= 1024
                &&& n > 0 && !greeting && !answer ==> room_to_send(t, task.port, n as nat)
            }
        },
{
    if event is Read {
        let n = event->Read_0;
        if n <= buf.len() {
            let packet = buf.take(n as int);
            lemma_greetings(packet, ClientGreeting::NoAuth);
            lemma_answers(packet);
        }
    }
}

/// An action stands for what it holds.
pub proof fn lemma_tcp_action_stands_for_itself(action: TcpAction)
    ensures
        match action {
            TcpAction::Read => action@ is Read,
            TcpAction::WriteTcp(b) => action@ == TcpOutput::WriteTcp(b@),
            TcpAction::SendWs(b) => action@ == TcpOutput::SendWs(b@),
            TcpAction::SendClose => action@ is SendClose,
            TcpAction::Finish(need_close) => action@ == TcpOutput::Finish(need_close),
            TcpAction::Abort => action@ is Abort,
        },
{
}

} // verus!
