//! What a listener does with each connection that it accepts, and whether it goes on.
use vstd::prelude::*;
use vstd::string::*;
use std::time::SystemTime;
use crate::clean_up::{fails, lemma_clean_up_takes_out, CleanUp, CleanUpEvent};
use crate::communicate::{SetupError, SetupModel, SetupOutput, SourceModel, TcpOrDestination};
use crate::direction::Direction;
use crate::status::{
    counted, current_time, fresh, is_ack, register_at, table, ConnectionStatusCode, StatusMap,
    StatusModel,
};
use crate::tcp_incoming::{TcpEvent, TcpIncoming};
use crate::text::{begins_with, starts_with};
use crate::ws_incoming::{WsInput, WsModel};

verus! {

// ---------------------------------------------------------------------------
// Locations
// ---------------------------------------------------------------------------

/// The destination has the scheme of a websocket, plain or secure.
pub open spec fn has_scheme(dest: Seq<char>) -> bool {
    starts_with(dest, "ws://"@) || starts_with(dest, "wss://"@)
}

/// The URL for a destination: the scheme is put in front where there is none.
pub open spec fn url_of(dest: Seq<char>) -> Seq<char> {
    if has_scheme(dest) {
        dest
    } else {
        "ws://"@ + dest
    }
}

/// The first two octets of the destination can be looked at by themselves.
pub open spec fn has_head(dest: &str) -> bool {
    vstd::utf8::is_char_boundary(dest.spec_bytes(), 2)
}

/// Whether the first two octets of the destination can be looked at by themselves.
pub fn is_headed(dest: &str) -> (r: bool)
    ensures
        r == has_head(dest),
{
    dest.is_char_boundary(2)
}

/// The URL for a destination.
pub fn websocket_url(dest: &str) -> (url: String)
    requires
        has_head(dest),
    ensures
        url@ == url_of(dest@),
        url@ == dest@ || url@ == seq!['w', 's', ':', '/', '/'] + dest@,
        dest@.len() < 3 || dest@[0] != 'w' || dest@[1] != 's' || (dest@[2] != ':' && dest@[2] != 's')
            ==> url@ == seq!['w', 's', ':', '/', '/'] + dest@,
{
    proof {
        reveal_strlit("ws://");
        reveal_strlit("wss://");
        assert("ws://"@ =~= seq!['w', 's', ':', '/', '/']);
        if dest@.len() >= 5 {
            assert(dest@.take(5)[0] == dest@[0] && dest@.take(5)[1] == dest@[1] && dest@.take(5)[2]
                == dest@[2]);
        }
        if dest@.len() >= 6 {
            assert(dest@.take(6)[0] == dest@[0] && dest@.take(6)[1] == dest@[1] && dest@.take(6)[2]
                == dest@[2]);
        }
    }
    if begins_with(dest, "ws://") || begins_with(dest, "wss://") {
        dest.to_owned()
    } else {
        "ws://".to_owned().concat(dest)
    }
}

/// The URL of a destination has a scheme, and the URL of a URL is that URL.
pub proof fn lemma_url_of_url(dest: Seq<char>)
    ensures
        url_of(url_of(dest)) == url_of(dest),
        has_scheme(url_of(dest)),
{
    assert(("ws://"@ + dest).take("ws://"@.len() as int) =~= "ws://"@);
}

// ---------------------------------------------------------------------------
// Listeners
// ---------------------------------------------------------------------------

/// What accepts the connections.
#[derive(Debug, PartialEq, Eq)]
pub struct Listener {
    /// Which end of the tunnel this is.
    pub side: Direction,
    /// The end at which the tasks of a connection handle the SOCKS5 handshake, if they do.
    pub handshake: Option<Direction>,
    /// Where the other socket of each connection leads.
    pub location: String,
}

/// What a `Listener` stands for.
#[verifier::ext_equal]
pub struct ListenerModel {
    pub side: Direction,
    pub handshake: Option<Direction>,
    pub location: Seq<char>,
}

impl View for Listener {
    type V = ListenerModel;

    open spec fn view(&self) -> ListenerModel {
        ListenerModel { side: self.side, handshake: self.handshake, location: self.location@ }
    }
}

impl ListenerModel {
    /// A listener at one end of the tunnel. At the client side the destination is the URL of
    /// a websocket.
    pub open spec fn at(
        side: Direction,
        handshake: Option<Direction>,
        dest: Seq<char>,
    ) -> ListenerModel {
        ListenerModel {
            side,
            handshake,
            location: match side {
                Direction::ServerSide => dest,
                Direction::ClientSide => url_of(dest),
            },
        }
    }

    /// Where the websocket and the TCP socket of a connection come from. The accepted
    /// socket carries the websocket at the server side, and is the TCP socket at the
    /// client side.
    pub open spec fn sources<S>(self, socket: S) -> (SourceModel<S>, SourceModel<S>) {
        match self.side {
            Direction::ServerSide => (
                SourceModel::Tcp(socket),
                SourceModel::Dest(self.location),
            ),
            Direction::ClientSide => (
                SourceModel::Dest(self.location),
                SourceModel::Tcp(socket),
            ),
        }
    }

    /// The table of connections after one was accepted at the time `now`. At the client
    /// side it is entered under the port of its peer.
    pub open spec fn table_after(
        self,
        peer: Option<u16>,
        t: Map<u16, StatusModel>,
        now: SystemTime,
    ) -> Map<u16, StatusModel> {
        match (self.side, peer) {
            (Direction::ClientSide, Some(port)) => t.insert(port, fresh(now)),
            _ => t,
        }
    }

    /// The accepted connection is to be set up.
    pub open spec fn takes(self, peer: Option<u16>) -> bool {
        self.side is ServerSide || peer is Some
    }

    /// The listener goes on after a setup that succeeded, or did not. One whose tasks
    /// handle the handshake ends with the first failure.
    pub open spec fn goes_on(self, set_up: bool) -> bool {
        set_up || self.handshake is None
    }
}

impl Listener {
    /// A listener at one end of the tunnel.
    pub fn new(side: Direction, handshake: Option<Direction>, dest: &str) -> (listener: Listener)
        requires
            side is ClientSide ==> has_head(dest),
        ensures
            listener@ == ListenerModel::at(side, handshake, dest@),
    {
        let location: String = match side {
            Direction::ServerSide => dest.to_owned(),
            Direction::ClientSide => websocket_url(dest),
        };
        Listener { side, handshake, location }
    }

    /// Handles a connection that was accepted at the time `now`, whose peer has this port,
    /// if it is known.
    pub fn accepted_at<S>(
        &self,
        socket: S,
        peer: Option<u16>,
        map: &mut StatusMap,
        now: SystemTime,
    ) -> (r: Result<(TcpOrDestination<S>, TcpOrDestination<S>), SetupError>)
        ensures
            match r {
                Ok((tcp_in, ws_in)) => self@.takes(peer) && (tcp_in@, ws_in@) == self@.sources(
                    socket,
                ),
                Err(e) => !self@.takes(peer) && e == SetupError::PeerAddr,
            },
            table(final(map)@) == self@.table_after(peer, table(old(map)@), now),
    {
        match self.side {
            Direction::ServerSide => Ok(
                (TcpOrDestination::Tcp(socket), TcpOrDestination::Dest(self.location.clone())),
            ),
            Direction::ClientSide => match peer {
                Some(port) => {
                    register_at(map, port, now);
                    let url = self.location.clone();
                    Ok((TcpOrDestination::Dest(url), TcpOrDestination::Tcp(socket)))
                },
                None => Err(SetupError::PeerAddr),
            },
        }
    }

    /// Handles a connection that was just accepted.
    pub fn accepted<S>(&self, socket: S, peer: Option<u16>, map: &mut StatusMap) -> (r: Result<
        (TcpOrDestination<S>, TcpOrDestination<S>),
        SetupError,
    >)
        ensures
            match r {
                Ok((tcp_in, ws_in)) => self@.takes(peer) && (tcp_in@, ws_in@) == self@.sources(
                    socket,
                ),
                Err(e) => !self@.takes(peer) && e == SetupError::PeerAddr,
            },
            exists|now: SystemTime|
                table(final(map)@) == #[trigger] self@.table_after(peer, table(old(map)@), now),
    {
        let now = current_time();
        let r = self.accepted_at(socket, peer, map, now);
        assert(table(map@) == self@.table_after(peer, table(old(map)@), now));
        r
    }

    /// Whether the listener goes on after a setup that succeeded, or did not.
    pub fn goes_on(&self, set_up: bool) -> (r: bool)
        ensures
            r == self@.goes_on(set_up),
    {
        match self.handshake {
            Some(_) => set_up,
            None => true,
        }
    }
}

/// The listener at one end of the tunnel that does not look into the SOCKS5 handshake.
pub fn serve(dest_location: &str, dir: Direction) -> (listener: Listener)
    requires
        dir is ClientSide ==> has_head(dest_location),
    ensures
        listener@ == ListenerModel::at(dir, None, dest_location@),
{
    Listener::new(dir, None, dest_location)
}

/// The listener that accepts websockets and connects TCP sockets, whose tasks handle the
/// handshake as at the end `dir`.
pub fn serve_server_side(dest_location: &str, dir: Direction) -> (listener: Listener)
    ensures
        listener@ == ListenerModel::at(Direction::ServerSide, Some(dir), dest_location@),
{
    Listener::new(Direction::ServerSide, Some(dir), dest_location)
}

/// The listener that accepts TCP sockets and connects websockets, whose tasks handle the
/// handshake as at the end `dir`.
pub fn serve_client_side(dest_location: &str, dir: Direction) -> (listener: Listener)
    requires
        has_head(dest_location),
    ensures
        listener@ == ListenerModel::at(Direction::ClientSide, Some(dir), dest_location@),
{
    Listener::new(Direction::ClientSide, Some(dir), dest_location)
}

/// The listener at one end of the tunnel whose tasks handle the handshake there.
pub fn serve_separate(dest_location: &str, dir: Direction) -> (listener: Listener)
    requires
        dir is ClientSide ==> has_head(dest_location),
    ensures
        listener@ == ListenerModel::at(dir, Some(dir), dest_location@),
{
    match dir {
        Direction::ServerSide => serve_server_side(dest_location, dir),
        Direction::ClientSide => serve_client_side(dest_location, dir),
    }
}

// ---------------------------------------------------------------------------
// Laws
// ---------------------------------------------------------------------------

/// At the server side the websocket is accepted on the socket that came and the TCP
/// socket is connected to the destination. At the client side the websocket is connected
/// to the destination and the socket that came is the TCP socket.
pub proof fn lemma_listener_sets_up<S>(
    side: Direction,
    handshake: Option<Direction>,
    dest: Seq<char>,
    socket: S,
)
    ensures
        ({
            let (tcp_in, ws_in) = ListenerModel::at(side, handshake, dest).sources(socket);
            match side {
                Direction::ServerSide => {
                    &&& SetupModel::first(tcp_in) == SetupOutput::AcceptWs(socket)
                    &&& SetupModel::with_ws(ws_in).1 == SetupOutput::<S>::ConnectTcp(dest)
                },
                Direction::ClientSide => {
                    &&& SetupModel::first(tcp_in) == SetupOutput::<S>::ConnectWs(url_of(dest))
                    &&& SetupModel::with_ws(ws_in).0 == SetupModel::AskingPeer(socket)
                },
            }
        }),
{
}

/// What the tasks of a connection record, one thing after the other.
pub enum Record {
    /// The task that reads the TCP socket handles an event.
    Tcp(TcpIncoming, TcpEvent, Seq<u8>),
    /// The task that reads the websocket handles an event.
    Ws(WsModel, WsInput, SystemTime),
}

impl Record {
    /// The port of the connection.
    pub open spec fn port(self) -> u16 {
        match self {
            Record::Tcp(task, _, _) => task.port,
            Record::Ws(task, _, _) => task.port,
        }
    }

    /// The table of connections after this.
    pub open spec fn table_after(self, t: Map<u16, StatusModel>) -> Map<u16, StatusModel> {
        match self {
            Record::Tcp(task, event, buf) => task.table_after(event, buf, t),
            Record::Ws(task, event, now) => task.table_after(event, t, now),
        }
    }
}

/// The table of connections after a course of records.
pub open spec fn recorded(records: Seq<Record>, t: Map<u16, StatusModel>) -> Map<u16, StatusModel>
    decreases records.len(),
{
    if records.len() == 0 {
        t
    } else {
        records.last().table_after(recorded(records.drop_last(), t))
    }
}

/// The tasks of a connection leave all other connections as they are, and neither enter
/// nor take out any.
pub proof fn lemma_records_stay_apart(
    port: u16,
    records: Seq<Record>,
    t: Map<u16, StatusModel>,
)
    requires
        forall|i: int| 0 <= i < records.len() ==> (#[trigger] records[i]).port() == port,
    ensures
        recorded(records, t).remove(port) == t.remove(port),
        recorded(records, t).dom() == t.dom(),
    decreases records.len(),
{
    if records.len() > 0 {
        let before = records.drop_last();
        assert(forall|i: int| 0 <= i < before.len() ==> before[i] == records[i]);
        lemma_records_stay_apart(port, before, t);
        let t1 = recorded(before, t);
        assert(records[records.len() - 1].port() == port);
        assert(recorded(records, t).remove(port) =~= t1.remove(port));
        assert(recorded(records, t).dom() =~= t1.dom());
    }
}

impl Record {
    /// The end of the tunnel at which the task handles the handshake, if it does.
    pub open spec fn handshake(self) -> Option<Direction> {
        match self {
            Record::Tcp(task, _, _) => task.handshake,
            Record::Ws(task, _, _) => task.handshake,
        }
    }

    /// The task is well formed and can handle the event.
    pub open spec fn ready(self, t: Map<u16, StatusModel>) -> bool {
        match self {
            Record::Tcp(task, event, buf) => task.wf() && task.accepts(event) && task.ready(
                event,
                buf,
                t,
            ),
            Record::Ws(task, event, _) => task.wf() && task.accepts(event) && task.ready(event, t),
        }
    }

    /// The number of octets that were read from the TCP socket.
    pub open spec fn read_len(self) -> nat {
        match self {
            Record::Tcp(_, TcpEvent::Read(n), _) => n as nat,
            _ => 0,
        }
    }

    /// The number of octets that count as sent: those of a packet that is passed on, be it
    /// a greeting whose answer could not be written, or of one that breaks the task off.
    pub open spec fn sent_len(self) -> nat {
        match self {
            Record::Tcp(task, event, buf) => match task.forwards(event, buf) {
                Some(packet) => packet.len(),
                None => if task.next(event, buf).phase is Aborted {
                    self.read_len()
                } else {
                    0
                },
            },
            Record::Ws(..) => 0,
        }
    }

    /// The message that was written to the TCP socket without a failure.
    pub open spec fn written(self) -> Option<Seq<u8>> {
        match self {
            Record::Ws(task, WsInput::Written(true), _) => Some(task.phase->Writing_0),
            _ => None,
        }
    }

    /// The number of octets in that message.
    pub open spec fn written_len(self) -> nat {
        match self.written() {
            Some(x) => x.len(),
            None => 0,
        }
    }

    /// That message acknowledges a SOCKS5 greeting.
    pub open spec fn acknowledges(self) -> bool {
        match self.written() {
            Some(x) => is_ack(x),
            None => false,
        }
    }
}

/// Each packet that is passed on or breaks the task off adds its length to the octets
/// sent, which is each packet that is read where no handshake is handled. Each message that
/// was written adds its length to the octets got. The connection becomes connected, and
/// active now, only by an acknowledgement. No other connection changes, and none is entered
/// or taken out.
pub proof fn lemma_relay_counts_each(record: Record, t: Map<u16, StatusModel>)
    requires
        record.ready(t),
        t.contains_key(record.port()),
    ensures
        ({
            let port = record.port();
            let after = record.table_after(t);
            &&& after.contains_key(port)
            &&& after[port].bytes_sent == t[port].bytes_sent + counted(record.sent_len())
            &&& record.handshake() is None ==> record.sent_len() == record.read_len()
            &&& after[port].bytes_got == t[port].bytes_got + counted(record.written_len())
            &&& if record.acknowledges() {
                after[port].status is CONNECTED && after[port].last_active == record->Ws_2
            } else {
                after[port].status == t[port].status && after[port].last_active
                    == t[port].last_active
            }
            &&& after.remove(port) == t.remove(port)
            &&& after.dom() == t.dom()
        }),
{
    let port = record.port();
    let after = record.table_after(t);
    assert(after.remove(port) =~= t.remove(port));
    assert(after.dom() =~= t.dom());
}

/// Each record of a course can be made when it comes.
pub open spec fn all_ready(records: Seq<Record>, t: Map<u16, StatusModel>) -> bool
    decreases records.len(),
{
    records.len() == 0 || (all_ready(records.drop_last(), t) && records.last().ready(
        recorded(records.drop_last(), t),
    ))
}

/// The octets that count as sent in a course of records.
pub open spec fn total_sent(records: Seq<Record>) -> nat
    decreases records.len(),
{
    if records.len() == 0 {
        0
    } else {
        total_sent(records.drop_last()) + counted(records.last().sent_len())
    }
}

/// The octets read from the TCP socket in a course of records.
pub open spec fn total_read(records: Seq<Record>) -> nat
    decreases records.len(),
{
    if records.len() == 0 {
        0
    } else {
        total_read(records.drop_last()) + counted(records.last().read_len())
    }
}

/// The octets written to the TCP socket in a course of records.
pub open spec fn total_written(records: Seq<Record>) -> nat
    decreases records.len(),
{
    if records.len() == 0 {
        0
    } else {
        total_written(records.drop_last()) + counted(records.last().written_len())
    }
}

/// An acknowledgement was written in a course of records.
pub open spec fn ever_acknowledged(records: Seq<Record>) -> bool {
    exists|i: int| 0 <= i < records.len() && (#[trigger] records[i]).acknowledges()
}

/// Whatever the order in which the two tasks of a connection go on, its counts grow by all
/// that counts as sent and all that was written. Where no handshake is handled, all that is
/// read counts as sent. The connection becomes connected by an acknowledgement and by
/// nothing else.
pub proof fn lemma_relay_counts(port: u16, records: Seq<Record>, t: Map<u16, StatusModel>)
    requires
        forall|i: int| 0 <= i < records.len() ==> (#[trigger] records[i]).port() == port,
        all_ready(records, t),
        t.contains_key(port),
    ensures
        ({
            let after = recorded(records, t);
            &&& after.contains_key(port)
            &&& after[port].bytes_sent == t[port].bytes_sent + total_sent(records)
            &&& (forall|i: int|
                0 <= i < records.len() ==> (#[trigger] records[i]).handshake() is None)
                ==> total_sent(records) == total_read(records)
            &&& after[port].bytes_got == t[port].bytes_got + total_written(records)
            &&& after[port].status == (if ever_acknowledged(records) {
                ConnectionStatusCode::CONNECTED
            } else {
                t[port].status
            })
        }),
    decreases records.len(),
{
    if records.len() > 0 {
        let before = records.drop_last();
        let last = records.last();
        assert(forall|i: int| 0 <= i < before.len() ==> before[i] == records[i]);
        assert(records[records.len() - 1] == last);
        lemma_relay_counts(port, before, t);
        lemma_relay_counts_each(last, recorded(before, t));
        assert(ever_acknowledged(records) == (ever_acknowledged(before)
            || last.acknowledges())) by {
            if ever_acknowledged(before) {
                let i = choose|i: int|
                    0 <= i < before.len() && (#[trigger] before[i]).acknowledges();
                assert(records[i].acknowledges());
            }
            if ever_acknowledged(records) {
                let i = choose|i: int|
                    0 <= i < records.len() && (#[trigger] records[i]).acknowledges();
                if i < before.len() {
                    assert(before[i].acknowledges());
                }
            }
        }
    }
}

/// A connection that was entered at the client side, whatever its tasks recorded, is
/// gone once the clean-up has ended without a failure, and all other connections are as
/// they were.
pub proof fn lemma_connection_leaves_no_trace(
    handshake: Option<Direction>,
    port: u16,
    now: SystemTime,
    records: Seq<Record>,
    course: Seq<CleanUpEvent>,
    t: Map<u16, StatusModel>,
)
    requires
        forall|i: int| 0 <= i < records.len() ==> (#[trigger] records[i]).port() == port,
        CleanUp::initial(handshake, port).legal(course),
        CleanUp::initial(handshake, port).run(course).phase is Finished,
        forall|i: int| 0 <= i < course.len() ==> !fails(#[trigger] course[i]),
    ensures
        CleanUp::initial(handshake, port).table_run(
            course,
            recorded(records, t.insert(port, fresh(now))),
        ) == t.remove(port),
{
    let entered = t.insert(port, fresh(now));
    lemma_records_stay_apart(port, records, entered);
    lemma_clean_up_takes_out(handshake, port, course, recorded(records, entered));
    assert(entered.remove(port) =~= t.remove(port));
}

/// A destination that starts with neither `ws://` nor `wss://` gets the five characters
/// `ws://` in front, whatever else it starts with. One that starts with either is its own
/// URL.
pub proof fn lemma_url(dest: Seq<char>, rest: Seq<char>)
    requires
        dest.len() < 5 || !(dest[0] == 'w' && dest[1] == 's' && dest[2] == ':' && dest[3] == '/'
            && dest[4] == '/'),
        dest.len() < 6 || !(dest[0] == 'w' && dest[1] == 's' && dest[2] == 's' && dest[3] == ':'
            && dest[4] == '/' && dest[5] == '/'),
    ensures
        url_of(dest) == seq!['w', 's', ':', '/', '/'] + dest,
        url_of(seq!['w', 's', ':', '/', '/'] + rest) == seq!['w', 's', ':', '/', '/'] + rest,
        url_of(seq!['w', 's', 's', ':', '/', '/'] + rest) == seq!['w', 's', 's', ':', '/', '/']
            + rest,
{
    reveal_strlit("ws://");
    reveal_strlit("wss://");
    let plain = seq!['w', 's', ':', '/', '/'];
    let secure = seq!['w', 's', 's', ':', '/', '/'];
    assert("ws://"@ =~= plain);
    assert("wss://"@ =~= secure);
    assert((plain + rest).take(5) =~= plain);
    assert((secure + rest).take(6) =~= secure);
    if dest.len() >= 5 {
        let head = dest.take(5);
        assert(head[0] == dest[0] && head[1] == dest[1] && head[2] == dest[2] && head[3] == dest[3]
            && head[4] == dest[4]);
    }
    if dest.len() >= 6 {
        let head = dest.take(6);
        assert(head[0] == dest[0] && head[1] == dest[1] && head[2] == dest[2] && head[3] == dest[3]
            && head[4] == dest[4] && head[5] == dest[5]);
    }
}

/// A listener keeps its side and its handshake. At the server side it leads to the very
/// destination, and at the client side to the URL of it.
pub proof fn lemma_listener(side: Direction, handshake: Option<Direction>, dest: Seq<char>)
    ensures
        ListenerModel::at(side, handshake, dest).side == side,
        ListenerModel::at(side, handshake, dest).handshake == handshake,
        side is ServerSide ==> ListenerModel::at(side, handshake, dest).location == dest,
        side is ClientSide ==> ListenerModel::at(side, handshake, dest).location == url_of(dest),
{
}

/// The socket that was accepted carries the websocket at the server side and is the TCP
/// socket at the client side. The other one leads to the location.
pub proof fn lemma_listener_sources<S>(listener: ListenerModel, socket: S)
    ensures
        listener.side is ServerSide ==> listener.sources(socket) == (
            SourceModel::Tcp(socket),
            SourceModel::<S>::Dest(listener.location),
        ),
        listener.side is ClientSide ==> listener.sources(socket) == (
            SourceModel::<S>::Dest(listener.location),
            SourceModel::Tcp(socket),
        ),
{
}

/// At the client side a connection is entered under the port of its peer, new and without
/// octets, and is not set up without a peer. At the server side nothing is entered, and the
/// connection is set up in any case.
pub proof fn lemma_listener_enters(
    listener: ListenerModel,
    peer: Option<u16>,
    port: u16,
    t: Map<u16, StatusModel>,
    now: SystemTime,
)
    ensures
        ({
            let after = listener.table_after(peer, t, now);
            let entered = listener.side is ClientSide && peer == Some(port);
            &&& after.contains_key(port) <==> t.contains_key(port) || entered
            &&& entered ==> {
                &&& after[port].status is NEW
                &&& after[port].address == Seq::<char>::empty()
                &&& after[port].last_active == now
                &&& after[port].bytes_got == 0
                &&& after[port].bytes_sent == 0
            }
            &&& !entered && t.contains_key(port) ==> after[port] == t[port]
        }),
        listener.takes(peer) <==> !(listener.side is ClientSide && peer is None),
{
}

/// After a setup that succeeded a listener always goes on. After one that failed it goes on
/// only where its tasks handle no handshake.
pub proof fn lemma_listener_goes_on(listener: ListenerModel)
    ensures
        listener.goes_on(true),
        listener.goes_on(false) <==> listener.handshake is None,
{
}

/// A listener stands for what it holds.
pub proof fn lemma_listener_stands_for_itself(listener: Listener)
    ensures
        listener@.side == listener.side,
        listener@.handshake == listener.handshake,
        listener@.location == listener.location@,
{
}

/// A destination has a head where its second octet ends a character.
pub proof fn lemma_head(dest: &str)
    ensures
        has_head(dest) <==> vstd::utf8::is_char_boundary(dest.spec_bytes(), 2),
{
}

} // verus!
